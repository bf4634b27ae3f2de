//! Laws of how a search body is rewritten, member by member.

use vstd::prelude::*;

use crate::json::JsonView;
use crate::search_request as request;

verus! {

/// Whether `e` is an object with something under `key`.
pub open spec fn has_member(e: JsonView, key: Seq<char>) -> bool {
    e matches JsonView::Object(m) && m.contains_key(key)
}

/// What the object `e` has under `key`.
pub open spec fn value_at(e: JsonView, key: Seq<char>) -> JsonView
    recommends
        has_member(e, key),
{
    e->Object_0[key]
}

/// Whether `e` is an object with a string under `type`.
pub open spec fn is_typed(e: JsonView) -> bool {
    has_member(e, "type"@) && value_at(e, "type"@) is String
}

/// Whether two objects agree on `key`: neither has it, or both have the same under it.
pub open spec fn agree(a: JsonView, b: JsonView, key: Seq<char>) -> bool {
    &&& has_member(a, key) == has_member(b, key)
    &&& has_member(a, key) ==> value_at(a, key) == value_at(b, key)
}

/// Flattening changes nothing but an array under its key: without one the body stays as it is.
pub proof fn law_only_an_array_is_flattened(v: JsonView, key: Seq<char>)
    requires
        !(has_member(v, key) && value_at(v, key) is Array),
    ensures
        request::flattened(v, key) == v,
{
}

/// Flattening leaves every member alone but the one under its key, `tbs` and `lang`.
pub proof fn law_flattening_leaves_the_rest(v: JsonView, key: Seq<char>, k: Seq<char>)
    requires
        k != key,
        k != "tbs"@,
        k != "lang"@,
    ensures
        (request::flattened(v, key) is Object) == (v is Object),
        agree(request::flattened(v, key), v, k),
{
}

/// Flattening rewrites an array entry by entry: an object with a string type to that string, and
/// nothing else.
pub proof fn law_flattening_entry_by_entry(
    v: JsonView,
    key: Seq<char>,
    entries: Seq<JsonView>,
    i: int,
)
    requires
        has_member(v, key),
        value_at(v, key) == JsonView::Array(entries),
        0 <= i < entries.len(),
    ensures
        ({
            let r = request::flattened(v, key);
            &&& has_member(r, key)
            &&& value_at(r, key) matches JsonView::Array(plain)
            &&& plain.len() == entries.len()
            &&& is_typed(entries[i]) ==> plain[i] == value_at(entries[i], "type"@)
            &&& !is_typed(entries[i]) ==> plain[i] == entries[i]
        }),
{
}

/// An array without entries stays one.
pub proof fn law_flattening_keeps_the_length(v: JsonView, key: Seq<char>, entries: Seq<JsonView>)
    requires
        has_member(v, key),
        value_at(v, key) == JsonView::Array(entries),
    ensures
        ({
            let r = request::flattened(v, key);
            &&& has_member(r, key)
            &&& value_at(r, key) matches JsonView::Array(plain)
            &&& plain.len() == entries.len()
        }),
{
}

proof fn lemma_first_lifted(entries: Seq<JsonView>, field: Seq<char>, i: int)
    requires
        0 <= i < entries.len(),
        is_typed(entries[i]),
        has_member(entries[i], field),
        forall|j: int|
            0 <= j < i ==> !(is_typed(#[trigger] entries[j]) && has_member(entries[j], field)),
    ensures
        request::lifted(entries, field) == Some(value_at(entries[i], field)),
    decreases entries.len(),
{
    let before = entries.drop_last();
    if i < entries.len() - 1 {
        assert forall|j: int| 0 <= j < i implies !(is_typed(#[trigger] before[j]) && has_member(
            before[j],
            field,
        )) by {
            assert(before[j] == entries[j]);
        }
        lemma_first_lifted(before, field, i);
    } else {
        assert forall|j: int| 0 <= j < before.len() implies !(is_typed(
            #[trigger] before[j],
        ) && has_member(before[j], field)) by {
            assert(before[j] == entries[j]);
        }
        lemma_none_lifted(before, field);
    }
}

proof fn lemma_none_lifted(entries: Seq<JsonView>, field: Seq<char>)
    requires
        forall|j: int|
            0 <= j < entries.len() ==> !(is_typed(#[trigger] entries[j]) && has_member(
                entries[j],
                field,
            )),
    ensures
        request::lifted(entries, field) is None,
    decreases entries.len(),
{
    if entries.len() > 0 {
        let before = entries.drop_last();
        assert forall|j: int| 0 <= j < before.len() implies !(is_typed(
            #[trigger] before[j],
        ) && has_member(before[j], field)) by {
            assert(before[j] == entries[j]);
        }
        lemma_none_lifted(before, field);
        let last = entries[entries.len() - 1];
        assert(!(is_typed(last) && has_member(last, field)));
    }
}

proof fn lemma_tbs_is_not_lang()
    ensures
        "tbs"@ != "lang"@,
{
    reveal_strlit("tbs");
    reveal_strlit("lang");
    assert("tbs"@.len() == 3);
    assert("lang"@.len() == 4);
}

/// A `tbs` or `lang` at the top level stays, whatever the entries say.
pub proof fn law_flattening_keeps_a_filter(v: JsonView, key: Seq<char>, field: Seq<char>)
    requires
        field == "tbs"@ || field == "lang"@,
        field != key,
        has_member(v, field),
    ensures
        has_member(request::flattened(v, key), field),
        value_at(request::flattened(v, key), field) == value_at(v, field),
{
    lemma_tbs_is_not_lang();
}

/// Without one at the top level, the first typed entry that has a `tbs` or `lang` gives it,
/// whatever value it is.
pub proof fn law_flattening_lifts_the_first_filter(
    v: JsonView,
    key: Seq<char>,
    field: Seq<char>,
    entries: Seq<JsonView>,
    i: int,
)
    requires
        field == "tbs"@ || field == "lang"@,
        field != key,
        has_member(v, key),
        value_at(v, key) == JsonView::Array(entries),
        !has_member(v, field),
        0 <= i < entries.len(),
        is_typed(entries[i]),
        has_member(entries[i], field),
        forall|j: int|
            0 <= j < i ==> !(is_typed(#[trigger] entries[j]) && has_member(entries[j], field)),
    ensures
        has_member(request::flattened(v, key), field),
        value_at(request::flattened(v, key), field) == value_at(entries[i], field),
{
    lemma_tbs_is_not_lang();
    lemma_first_lifted(entries, field, i);
}

/// Where neither the top level nor a typed entry has a `tbs` or `lang`, there is none.
pub proof fn law_flattening_makes_no_filter_up(
    v: JsonView,
    key: Seq<char>,
    field: Seq<char>,
    entries: Seq<JsonView>,
)
    requires
        field == "tbs"@ || field == "lang"@,
        field != key,
        has_member(v, key),
        value_at(v, key) == JsonView::Array(entries),
        !has_member(v, field),
        forall|j: int|
            0 <= j < entries.len() ==> !(is_typed(#[trigger] entries[j]) && has_member(
                entries[j],
                field,
            )),
    ensures
        !has_member(request::flattened(v, key), field),
{
    lemma_tbs_is_not_lang();
    lemma_none_lifted(entries, field);
}

/// A body is flattened at `sources`, then at `categories`; of what comes of that, only the scrape
/// options are rewritten further, on their own.
pub proof fn law_a_body_is_rewritten_step_by_step(v: JsonView, k: Seq<char>)
    ensures
        ({
            let flat = request::flattened(request::flattened(v, "sources"@), "categories"@);
            let r = request::normalized(v);
            &&& !(v is Object) ==> r == v
            &&& v is Object ==> r is Object
            &&& k != "scrapeOptions"@ ==> agree(r, flat, k)
            &&& has_member(r, "scrapeOptions"@) == has_member(v, "scrapeOptions"@)
            &&& has_member(v, "scrapeOptions"@) ==> value_at(r, "scrapeOptions"@)
                == request::plain_options(value_at(v, "scrapeOptions"@))
        }),
{
    lemma_option_keys();
    let once = request::flattened(v, "sources"@);
    law_flattening_leaves_the_rest(v, "sources"@, "scrapeOptions"@);
    law_flattening_leaves_the_rest(once, "categories"@, "scrapeOptions"@);
}

proof fn lemma_option_keys()
    ensures
        "scrapeOptions"@ != "sources"@,
        "scrapeOptions"@ != "categories"@,
        "scrapeOptions"@ != "tbs"@,
        "scrapeOptions"@ != "lang"@,
        "formats"@ != "jsonSchema"@,
{
    reveal_strlit("scrapeOptions");
    reveal_strlit("sources");
    reveal_strlit("categories");
    reveal_strlit("tbs");
    reveal_strlit("lang");
    reveal_strlit("formats");
    reveal_strlit("jsonSchema");
    assert("scrapeOptions"@.len() == 13);
    assert("sources"@.len() == 7);
    assert("categories"@.len() == 10);
    assert("tbs"@.len() == 3);
    assert("lang"@.len() == 4);
    assert("formats"@.len() == 7);
    assert("jsonSchema"@.len() == 10);
}

/// Scrape options without an array under `formats` stay as they are.
pub proof fn law_only_an_array_of_formats_is_rewritten(opts: JsonView)
    requires
        !(has_member(opts, "formats"@) && value_at(opts, "formats"@) is Array),
    ensures
        request::plain_options(opts) == opts,
{
}

/// Scrape options keep every member but `formats` and `jsonSchema`.
pub proof fn law_other_options_stay(opts: JsonView, k: Seq<char>)
    requires
        k != "formats"@,
        k != "jsonSchema"@,
    ensures
        (request::plain_options(opts) is Object) == (opts is Object),
        agree(request::plain_options(opts), opts, k),
{
}

/// Scrape options with these formats.
pub open spec fn with_formats(m: Map<Seq<char>, JsonView>, formats: Seq<JsonView>) -> JsonView {
    JsonView::Object(m.insert("formats"@, JsonView::Array(formats)))
}

/// No formats stay none; one format more is one name more behind the others: a string as it is, an
/// object with a string type as that string. Anything else is left out.
pub proof fn law_formats_one_by_one(
    m: Map<Seq<char>, JsonView>,
    formats: Seq<JsonView>,
    format: JsonView,
)
    ensures
        has_member(request::plain_options(with_formats(m, Seq::empty())), "formats"@),
        value_at(request::plain_options(with_formats(m, Seq::empty())), "formats"@)
            == JsonView::Array(Seq::empty()),
        ({
            let fewer = request::plain_options(with_formats(m, formats));
            let more = request::plain_options(with_formats(m, formats.push(format)));
            &&& has_member(fewer, "formats"@)
            &&& has_member(more, "formats"@)
            &&& value_at(fewer, "formats"@) matches JsonView::Array(names)
            &&& value_at(more, "formats"@) == JsonView::Array(
                if format is String {
                    names.push(format)
                } else if is_typed(format) {
                    names.push(value_at(format, "type"@))
                } else {
                    names
                },
            )
        }),
{
    lemma_option_keys();
    assert(formats.push(format).drop_last() =~= formats);
}

/// Whether the format is an object of type `json` with a schema.
pub open spec fn gives_schema(format: JsonView) -> bool {
    &&& has_member(format, "type"@)
    &&& value_at(format, "type"@) == JsonView::String("json"@)
    &&& has_member(format, "schema"@)
}

proof fn lemma_last_schema(formats: Seq<JsonView>, i: int)
    requires
        0 <= i < formats.len(),
        gives_schema(formats[i]),
        forall|j: int| i < j < formats.len() ==> !gives_schema(#[trigger] formats[j]),
    ensures
        request::format_schema(formats) == Some(value_at(formats[i], "schema"@)),
    decreases formats.len(),
{
    if i < formats.len() - 1 {
        let before = formats.drop_last();
        assert(!gives_schema(formats[formats.len() - 1]));
        assert forall|j: int| i < j < before.len() implies !gives_schema(#[trigger] before[j]) by {
            assert(before[j] == formats[j]);
        }
        lemma_last_schema(before, i);
    }
}

proof fn lemma_no_schema(formats: Seq<JsonView>)
    requires
        forall|j: int| 0 <= j < formats.len() ==> !gives_schema(#[trigger] formats[j]),
    ensures
        request::format_schema(formats) is None,
    decreases formats.len(),
{
    if formats.len() > 0 {
        let before = formats.drop_last();
        assert(!gives_schema(formats[formats.len() - 1]));
        assert forall|j: int| 0 <= j < before.len() implies !gives_schema(#[trigger] before[j]) by {
            assert(before[j] == formats[j]);
        }
        lemma_no_schema(before);
    }
}

/// A schema that stands in the options stays, whatever the formats give.
pub proof fn law_a_schema_that_is_there_stays(opts: JsonView)
    requires
        has_member(opts, "jsonSchema"@),
    ensures
        has_member(request::plain_options(opts), "jsonSchema"@),
        value_at(request::plain_options(opts), "jsonSchema"@) == value_at(opts, "jsonSchema"@),
{
    lemma_option_keys();
}

/// Without one there, the schema of the last `json` format that has one is lifted, whatever kind of
/// value it is.
pub proof fn law_the_last_schema_is_lifted(opts: JsonView, formats: Seq<JsonView>, i: int)
    requires
        has_member(opts, "formats"@),
        value_at(opts, "formats"@) == JsonView::Array(formats),
        !has_member(opts, "jsonSchema"@),
        0 <= i < formats.len(),
        gives_schema(formats[i]),
        forall|j: int| i < j < formats.len() ==> !gives_schema(#[trigger] formats[j]),
    ensures
        has_member(request::plain_options(opts), "jsonSchema"@),
        value_at(request::plain_options(opts), "jsonSchema"@) == value_at(formats[i], "schema"@),
{
    lemma_option_keys();
    lemma_last_schema(formats, i);
}

/// Where neither the options nor a `json` format have a schema, there is none.
pub proof fn law_no_schema_is_made_up(opts: JsonView, formats: Seq<JsonView>)
    requires
        has_member(opts, "formats"@),
        value_at(opts, "formats"@) == JsonView::Array(formats),
        !has_member(opts, "jsonSchema"@),
        forall|j: int| 0 <= j < formats.len() ==> !gives_schema(#[trigger] formats[j]),
    ensures
        !has_member(request::plain_options(opts), "jsonSchema"@),
{
    lemma_option_keys();
    lemma_no_schema(formats);
}

} // verus!
