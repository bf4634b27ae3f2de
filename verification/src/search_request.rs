//! `POST /v2/search` requests: rewriting the forms that v2 clients send into those that the search
//! engine reads.

use vstd::prelude::*;

use crate::json;
use crate::json::{Json, JsonObject, JsonView};

verus! {

broadcast use json::lemma_json_view;

/// The `type` of an object entry, if it has one and it is a string.
pub open spec fn entry_type(e: JsonView) -> Option<Seq<char>> {
    match member(e, "type"@) {
        Some(JsonView::String(t)) => Some(t),
        _ => None,
    }
}

/// The value under `key`, if `e` is an object and has one.
pub open spec fn member(e: JsonView, key: Seq<char>) -> Option<JsonView> {
    match e {
        JsonView::Object(m) => if m.contains_key(key) {
            Some(m[key])
        } else {
            None
        },
        _ => None,
    }
}

/// An entry as the engine reads it: an object with a string `type` becomes that string; anything
/// else stays as it is.
pub open spec fn plain_entry(e: JsonView) -> JsonView {
    match entry_type(e) {
        Some(t) => JsonView::String(t),
        None => e,
    }
}

/// What the entries say of `field`: the value that the first typed entry with such a field gives.
pub open spec fn lifted(entries: Seq<JsonView>, field: Seq<char>) -> Option<JsonView>
    decreases entries.len(),
{
    if entries.len() == 0 {
        None
    } else {
        match lifted(entries.drop_last(), field) {
            Some(value) => Some(value),
            None => if entry_type(entries.last()) is Some {
                member(entries.last(), field)
            } else {
                None
            },
        }
    }
}

/// `m` with `value` under `field`, if there is a value and nothing stands there.
pub open spec fn or_inserted(
    m: Map<Seq<char>, JsonView>,
    field: Seq<char>,
    value: Option<JsonView>,
) -> Map<Seq<char>, JsonView> {
    match value {
        Some(value) => if m.contains_key(field) {
            m
        } else {
            m.insert(field, value)
        },
        None => m,
    }
}

/// `v` with the entries of the array under `key` made plain, and what they say of `tbs` and `lang`
/// lifted to the top. Without such an array, `v` as it is.
pub open spec fn flattened(v: JsonView, key: Seq<char>) -> JsonView {
    match v {
        JsonView::Object(m) => match member(v, key) {
            Some(JsonView::Array(entries)) => {
                let plain = entries.map_values(|e: JsonView| plain_entry(e));
                let m = m.insert(key, JsonView::Array(plain));
                let m = or_inserted(m, "tbs"@, lifted(entries, "tbs"@));
                JsonView::Object(or_inserted(m, "lang"@, lifted(entries, "lang"@)))
            },
            _ => v,
        },
        _ => v,
    }
}

/// Whether the object is a typed entry.
fn is_typed(m: &JsonObject) -> (r: bool)
    ensures
        r == entry_type(JsonView::Object(m@)) is Some,
{
    match m.get("type") {
        Some(Json::String(_)) => true,
        _ => false,
    }
}

/// Takes `field` out of the entry unless an earlier one gave a value for it.
fn lift(m: &mut JsonObject, field: &str, slot: &mut Option<Json>)
    ensures
        forall|k: Seq<char>| k != field@ ==> member(JsonView::Object(final(m)@), k) == member(
            JsonView::Object(old(m)@),
            k,
        ),
        option_view(*final(slot)) == match option_view(*old(slot)) {
            Some(value) => Some(value),
            None => member(JsonView::Object(old(m)@), field@),
        },
{
    if slot.is_none() {
        *slot = m.remove(field);
    }
}

/// What an optional value is.
pub open spec fn option_view(v: Option<Json>) -> Option<JsonView> {
    match v {
        Some(v) => Some(v@),
        None => None,
    }
}

fn flatten_members(obj: &mut JsonObject, key: &str)
    ensures
        JsonView::Object(final(obj)@) == flattened(JsonView::Object(old(obj)@), key@),
{
    let is_array = match obj.get(key) {
        Some(Json::Array(_)) => true,
        _ => false,
    };
    if !is_array {
        return;
    }
    let ghost m0 = obj@;
    if let Some(Json::Array(entries)) = obj.remove(key) {
        let ghost all = entries@;
        let ghost views = json::array_of(all);
        let ghost mut n: int = 0;
        let mut plain: Vec<Json> = Vec::new();
        let mut tbs: Option<Json> = None;
        let mut lang: Option<Json> = None;
        assert(views.take(0) =~= Seq::<JsonView>::empty());
        for entry in it: entries
            invariant
                it.seq() == all,
                n == it.index(),
                views == json::array_of(all),
                json::array_of(plain@) == views.take(n).map_values(|e: JsonView| plain_entry(e)),
                option_view(tbs) == lifted(views.take(n), "tbs"@),
                option_view(lang) == lifted(views.take(n), "lang"@),
        {
            let ghost before = plain@;
            let ghost view = entry@;
            proof {
                reveal_strlit("type");
                reveal_strlit("tbs");
                reveal_strlit("lang");
                assert("type"@.len() == 4 && "type"@[0] == 't');
                assert("tbs"@.len() == 3);
                assert("lang"@[0] == 'l');
                assert(views.take(n + 1).drop_last() =~= views.take(n));
                assert(views.take(n + 1).last() == view);
            }
            let made = match entry {
                Json::Object(m) => {
                    let mut m = m;
                    if is_typed(&m) {
                        lift(&mut m, "tbs", &mut tbs);
                        lift(&mut m, "lang", &mut lang);
                        m.remove("type").unwrap()
                    } else {
                        Json::Object(m)
                    }
                },
                other => other,
            };
            assert(made@ == plain_entry(view));
            plain.push(made);
            proof {
                assert(json::array_of(plain@) =~= json::array_of(before).push(made@));
                assert(views.take(n + 1).map_values(|e: JsonView| plain_entry(e))
                    =~= views.take(n).map_values(|e: JsonView| plain_entry(e)).push(
                    plain_entry(view),
                ));
                n = n + 1;
            }
        }
        assert(views.take(n) =~= views);
        obj.insert(key, Json::Array(plain));
        assert(obj@ =~= m0.insert(key@, JsonView::Array(json::array_of(plain@))));
        if let Some(value) = tbs {
            obj.or_insert("tbs", value);
        }
        if let Some(value) = lang {
            obj.or_insert("lang", value);
        }
    }
}

/// Rewrites the object entries of the array under `key` to their `type` string, and lifts a `tbs`
/// or `lang` that one of them gives to the top level when there is none there. Entries without a
/// string `type` are left as they are.
pub fn flatten_typed_entries(v: &mut Json, key: &str)
    ensures
        final(v)@ == flattened(old(v)@, key@),
{
    if let Json::Object(obj) = v {
        flatten_members(obj, key);
    }
}

/// The names of the formats: the strings, and the string `type` of the objects. Anything else is
/// left out.
pub open spec fn format_names(formats: Seq<JsonView>) -> Seq<JsonView>
    decreases formats.len(),
{
    if formats.len() == 0 {
        Seq::empty()
    } else {
        let sofar = format_names(formats.drop_last());
        match plain_entry(formats.last()) {
            JsonView::String(name) => sofar.push(JsonView::String(name)),
            _ => sofar,
        }
    }
}

/// The schema that the formats give: that of the last `json` object with one.
pub open spec fn format_schema(formats: Seq<JsonView>) -> Option<JsonView>
    decreases formats.len(),
{
    if formats.len() == 0 {
        None
    } else {
        let last = formats.last();
        if entry_type(last) == Some("json"@) && member(last, "schema"@) is Some {
            member(last, "schema"@)
        } else {
            format_schema(formats.drop_last())
        }
    }
}

/// Scrape options with the array under `formats` cut down to names, and a schema that it gives
/// lifted to `jsonSchema` when there is none there. Without such an array, as they are.
pub open spec fn plain_options(opts: JsonView) -> JsonView {
    match opts {
        JsonView::Object(m) => match member(opts, "formats"@) {
            Some(JsonView::Array(formats)) => {
                let m = m.insert("formats"@, JsonView::Array(format_names(formats)));
                JsonView::Object(or_inserted(m, "jsonSchema"@, format_schema(formats)))
            },
            _ => opts,
        },
        _ => opts,
    }
}

/// `v` with its scrape options made plain.
pub open spec fn with_plain_options(v: JsonView) -> JsonView {
    match v {
        JsonView::Object(m) => match member(v, "scrapeOptions"@) {
            Some(opts) => JsonView::Object(m.insert("scrapeOptions"@, plain_options(opts))),
            None => v,
        },
        _ => v,
    }
}

/// A search body as the engine reads it.
pub open spec fn normalized(v: JsonView) -> JsonView {
    with_plain_options(flattened(flattened(v, "sources"@), "categories"@))
}

fn normalize_formats(opts: &mut JsonObject)
    ensures
        JsonView::Object(final(opts)@) == plain_options(JsonView::Object(old(opts)@)),
{
    let is_array = match opts.get("formats") {
        Some(Json::Array(_)) => true,
        _ => false,
    };
    if !is_array {
        return;
    }
    let ghost m0 = opts@;
    if let Some(Json::Array(formats)) = opts.remove("formats") {
        let ghost all = formats@;
        let ghost views = json::array_of(all);
        let ghost mut n: int = 0;
        let json_type = "json".to_owned();
        let mut names: Vec<Json> = Vec::new();
        let mut schema: Option<Json> = None;
        assert(views.take(0) =~= Seq::<JsonView>::empty());
        assert(json::array_of(names@) =~= Seq::<JsonView>::empty());
        for format in it: formats
            invariant
                it.seq() == all,
                n == it.index(),
                views == json::array_of(all),
                json_type@ == "json"@,
                json::array_of(names@) == format_names(views.take(n)),
                option_view(schema) == format_schema(views.take(n)),
        {
            let ghost before = names@;
            let ghost view = format@;
            proof {
                reveal_strlit("type");
                reveal_strlit("schema");
                assert("type"@.len() == 4);
                assert("schema"@.len() == 6);
                assert(views.take(n + 1).drop_last() =~= views.take(n));
                assert(views.take(n + 1).last() == view);
            }
            match format {
                Json::String(name) => {
                    names.push(Json::String(name));
                    assert(json::array_of(names@) =~= json::array_of(before).push(view));
                },
                Json::Object(m) => {
                    let mut m = m;
                    if is_typed(&m) {
                        if let Some(Json::String(t)) = m.remove("type") {
                            if t == json_type {
                                if let Some(s) = m.remove("schema") {
                                    schema = Some(s);
                                }
                            }
                            names.push(Json::String(t));
                            assert(json::array_of(names@) =~= json::array_of(before).push(
                                JsonView::String(t@),
                            ));
                        }
                    }
                },
                _ => {},
            }
            proof {
                n = n + 1;
            }
        }
        assert(views.take(n) =~= views);
        opts.insert("formats", Json::Array(names));
        assert(opts@ =~= m0.insert("formats"@, JsonView::Array(json::array_of(names@))));
        if let Some(s) = schema {
            opts.or_insert("jsonSchema", s);
        }
    }
}

/// Rewrites a v2 search body into the form that the engine reads: object-form `sources` and
/// `categories` are flattened, and `scrapeOptions.formats` becomes an array of strings, a `json`
/// schema lifted to `jsonSchema`.
pub fn normalize_search_body(v: Json) -> (r: Json)
    ensures
        r@ == normalized(v@),
{
    let mut v = v;
    flatten_typed_entries(&mut v, "sources");
    flatten_typed_entries(&mut v, "categories");
    let ghost flat = v@;
    if let Json::Object(obj) = &mut v {
        let ghost m0 = obj@;
        if let Some(opts) = obj.remove("scrapeOptions") {
            let mut opts = opts;
            if let Json::Object(members) = &mut opts {
                normalize_formats(members);
            }
            obj.insert("scrapeOptions", opts);
            assert(obj@ =~= m0.insert("scrapeOptions"@, opts@));
        } else {
            assert(obj@ =~= m0);
        }
        assert(JsonView::Object(obj@) == with_plain_options(JsonView::Object(m0)));
    }
    v
}

} // verus!
