use crw::error::CrwError;
use crw::json::{Json, JsonObject};
use crw::search::{
    invalid_search_request, on_body, on_found, on_request, search, search_response, shape, Field,
    Group, SearchData, SearchGroups, SearchResponseData, SearchStep, V2SearchData,
    V2SearchResponse,
};
use crw::search_request::{flatten_typed_entries, normalize_search_body};
use serde_json::Value;

fn to_json(v: Value) -> Json {
    match v {
        Value::Null => Json::Null,
        Value::Bool(b) => Json::Bool(b),
        Value::Number(n) => Json::Number(n),
        Value::String(s) => Json::String(s),
        Value::Array(items) => Json::Array(items.into_iter().map(to_json).collect()),
        Value::Object(members) => Json::Object(JsonObject::from_members(
            members.into_iter().map(|(key, value)| (key, to_json(value))).collect(),
        )),
    }
}

fn to_value(v: Json) -> Value {
    match v {
        Json::Null => Value::Null,
        Json::Bool(b) => Value::Bool(b),
        Json::Number(n) => Value::Number(n),
        Json::String(s) => Value::String(s),
        Json::Array(items) => Value::Array(items.into_iter().map(to_value).collect()),
        Json::Object(object) => Value::Object(
            object.into_members().into_iter().map(|(k, v)| (k, to_value(v))).collect(),
        ),
    }
}

fn value(text: &str) -> Value {
    serde_json::from_str(text).unwrap()
}

fn normalized(text: &str) -> Value {
    to_value(normalize_search_body(to_json(value(text))))
}

fn usage(input: u32, output: u32) -> Value {
    value(&format!(
        r#"{{"inputTokens": {}, "outputTokens": {}, "totalTokens": {},
            "model": "DeepSeek-V4-Pro", "provider": "openai-compatible", "truncated": false,
            "calls": 1, "executedSummaries": 2, "answerExecuted": true}}"#,
        input,
        output,
        input + output
    ))
}

fn response(llm_usage: Option<Value>) -> V2SearchResponse<Value, Value, Value> {
    V2SearchResponse {
        success: true,
        data: V2SearchData::default(),
        llm_usage,
        credits_used: 0,
        id: "id".to_string(),
    }
}

fn group_value(group: Group<Value, Value>) -> Value {
    match group {
        Group::Results(items) => Value::Array(items),
        Group::Images(items) => Value::Array(items),
    }
}

fn wire_value(response: V2SearchResponse<Value, Value, Value>) -> Value {
    let members = response.into_members().into_iter().map(|(key, field)| {
        let value = match field {
            Field::Bool(b) => Value::Bool(b),
            Field::Number(n) => Value::from(n),
            Field::Text(s) => Value::String(s),
            Field::Groups(groups) => Value::Object(
                groups.into_iter().map(|(k, group)| (k.to_string(), group_value(group))).collect(),
            ),
            Field::Usage(usage) => usage,
        };
        (key.to_string(), value)
    });
    Value::Object(members.collect())
}

#[test]
fn v2_search_carries_llm_usage_on_the_wire() {
    let wire = wire_value(response(Some(usage(1200, 340))));
    let u = wire
        .get("llmUsage")
        .expect("llmUsage must reach the wire when a model ran");
    assert_eq!(u.get("inputTokens").unwrap(), 1200);
    assert_eq!(u.get("outputTokens").unwrap(), 340);
    assert_eq!(u.get("executedSummaries").unwrap(), 2);
    assert_eq!(u.get("answerExecuted").unwrap(), true);
}

#[test]
fn v2_search_omits_llm_usage_when_no_model_ran() {
    let wire = wire_value(response(None));
    assert!(
        wire.get("llmUsage").is_none(),
        "a search with no LLM leg must not grow the key"
    );
    assert_eq!(wire, value(r#"{"success": true, "data": {}, "creditsUsed": 0, "id": "id"}"#));
}

#[test]
fn v2_search_accepts_object_form_sources_and_categories() {
    let req = normalized(
        r#"{"query": "q", "sources": [{"type": "web", "tbs": "qdr:w"}, "news"],
            "categories": [{"type": "github"}]}"#,
    );
    assert_eq!(req["sources"], value(r#"["web", "news"]"#));
    assert_eq!(req["categories"], value(r#"["github"]"#));
    assert_eq!(req["tbs"], "qdr:w");
    assert_eq!(req["query"], "q");

    // A top-level `tbs` wins over a per-source one.
    let req = normalized(
        r#"{"query": "q", "tbs": "qdr:d", "sources": [{"type": "web", "tbs": "qdr:y"}]}"#,
    );
    assert_eq!(req["tbs"], "qdr:d");
}

#[test]
fn the_first_typed_entry_with_a_filter_gives_it() {
    let req = normalized(
        r#"{"sources": [{"tbs": "untyped"}, {"type": 1, "lang": "no"},
                        {"type": "web", "lang": "de"}, {"type": "news", "tbs": null, "lang": "fr"}],
            "categories": [{"type": "pdf", "tbs": "late"}]}"#,
    );
    assert_eq!(
        req,
        value(
            r#"{"sources": [{"tbs": "untyped"}, {"type": 1, "lang": "no"}, "web", "news"],
                "categories": ["pdf"], "tbs": null, "lang": "de"}"#
        )
    );
    let req = normalized(r#"{"categories": [{"type": "pdf", "tbs": "qdr:m"}]}"#);
    assert_eq!(req, value(r#"{"categories": ["pdf"], "tbs": "qdr:m"}"#));
}

#[test]
fn formats_become_strings_and_a_schema_is_lifted() {
    let req = normalized(
        r#"{"scrapeOptions": {"formats": ["markdown", {"type": "json", "schema": {"a": 1}}, 7,
                {"type": "html", "schema": "no"}, {"no": "type"}, {"type": "json"},
                {"type": "json", "schema": [2.5]}], "onlyMainContent": true}}"#,
    );
    assert_eq!(
        req,
        value(
            r#"{"scrapeOptions": {"formats": ["markdown", "json", "html", "json", "json"],
                "jsonSchema": [2.5], "onlyMainContent": true}}"#
        )
    );
    let req = normalized(
        r#"{"scrapeOptions": {"formats": [{"type": "json", "schema": 1}], "jsonSchema": null}}"#,
    );
    assert_eq!(req, value(r#"{"scrapeOptions": {"formats": ["json"], "jsonSchema": null}}"#));
}

#[test]
fn plain_bodies_pass_through() {
    for text in [
        "null",
        "[1, -2, 0.5]",
        r#""text""#,
        "{}",
        r#"{"query": "q", "sources": ["web"], "categories": "x", "scrapeOptions": [1]}"#,
        r#"{"sources": [{"type": 5}, null], "scrapeOptions": {"formats": "markdown"}}"#,
        r#"{"sources": {"type": "web"}, "scrapeOptions": {"formats": []}, "n": -1, "f": 1e300}"#,
    ] {
        assert_eq!(normalized(text), value(text));
    }
}

#[test]
fn normalizing_is_idempotent() {
    let once = normalized(
        r#"{"sources": [{"type": "web", "lang": "de"}, {"x": 1}], "scrapeOptions":
            {"formats": [{"type": "json", "schema": {}}, {}]}}"#,
    );
    let twice = to_value(normalize_search_body(to_json(once.clone())));
    assert_eq!(once, twice);
}

#[test]
fn flattening_touches_only_its_key() {
    let mut v = to_json(value(r#"{"a": [{"type": "x"}], "b": [{"type": "y"}]}"#));
    flatten_typed_entries(&mut v, "a");
    assert_eq!(to_value(v), value(r#"{"a": ["x"], "b": [{"type": "y"}]}"#));
    let mut v = Json::Array(vec![Json::Null]);
    flatten_typed_entries(&mut v, "a");
    assert_eq!(to_value(v), value("[null]"));
}

#[test]
fn one_list_counts_as_web_results() {
    let data = shape::<u8, char>(SearchData::Flat(vec![1, 2]));
    assert_eq!((data.web, data.news, data.images), (Some(vec![1, 2]), None, None));
    let groups = SearchGroups { web: None, news: Some(vec![3]), images: Some(vec!['i']) };
    let data = shape(SearchData::Grouped(groups));
    assert_eq!((data.web, data.news, data.images), (None, Some(vec![3]), Some(vec!['i'])));
}

#[test]
fn the_usage_is_not_dropped() {
    let found = SearchResponseData::<u8, u8, &str> {
        results: SearchData::Flat(vec![1]),
        llm_usage: Some("usage"),
    };
    let r = search_response(Some(found), "id".to_string());
    assert_eq!((r.success, r.credits_used, r.id.as_str()), (true, 0, "id"));
    assert_eq!((r.data.web, r.llm_usage), (Some(vec![1]), Some("usage")));
    let r = search_response::<u8, u8, u8>(None, "id".to_string());
    assert_eq!((r.data.web, r.data.news, r.data.images), (None, None, None));
    assert_eq!((r.success, r.llm_usage), (true, None));
}

#[test]
fn groups_that_are_there_reach_the_wire() {
    let found = SearchResponseData {
        results: SearchData::Grouped(SearchGroups {
            web: Some(vec![Value::from(1)]),
            news: None,
            images: Some(Vec::new()),
        }),
        llm_usage: None,
    };
    let wire = wire_value(search_response(Some(found), "x".to_string()));
    assert_eq!(wire["data"], value(r#"{"web": [1], "images": []}"#));
    let found = SearchResponseData {
        results: SearchData::Flat(vec![Value::from(2)]),
        llm_usage: Some(usage(1, 2)),
    };
    let wire = wire_value(search_response(Some(found), "x".to_string()));
    assert_eq!(wire["data"], value(r#"{"web": [2]}"#));
    assert_eq!(wire["llmUsage"], usage(1, 2));
}

#[test]
fn members_keep_their_order_on_the_wire() {
    let keys = |usage| -> Vec<&'static str> {
        response(usage).into_members().into_iter().map(|(key, _)| key).collect()
    };
    assert_eq!(keys(None), vec!["success", "data", "creditsUsed", "id"]);
    assert_eq!(
        keys(Some(Value::Null)),
        vec!["success", "data", "creditsUsed", "id", "llmUsage"]
    );
    let data = V2SearchData {
        web: Some(vec![1]),
        news: Some(vec![2]),
        images: Some(vec!['i']),
    };
    let keys: Vec<&str> = data.into_members().into_iter().map(|(key, _)| key).collect();
    assert_eq!(keys, vec!["web", "news", "images"]);
}

#[test]
fn a_body_that_was_not_read_is_handed_back() {
    assert_eq!(on_body::<&str>(Err("not JSON")).err(), Some("not JSON"));
    let body = to_json(value(r#"{"sources": [{"type": "web"}]}"#));
    let body = on_body::<&str>(Ok(body)).unwrap();
    assert_eq!(to_value(body), value(r#"{"sources": ["web"]}"#));
}

#[test]
fn a_refused_request_never_runs() {
    match on_request::<u8>(Err("missing field `query`".to_string())) {
        SearchStep::Refused(CrwError::InvalidRequest(m)) => {
            assert_eq!(m, "Invalid search request: missing field `query`")
        }
        _ => panic!("not refused"),
    }
    assert!(matches!(on_request(Ok(7)), SearchStep::Run(7)));
}

#[test]
fn what_the_engine_gave_decides_the_reply() {
    let failure = CrwError::TargetUnreachable("engine down".to_string());
    let reply = on_found::<u8, u8, u8>(Err(failure.clone()));
    assert_eq!(reply.err(), Some(failure));
    let found = SearchResponseData::<u8, u8, u8> {
        results: SearchData::Flat(vec![1]),
        llm_usage: Some(9),
    };
    let reply = on_found(Ok(Some(found))).unwrap();
    assert_eq!((reply.data.web, reply.llm_usage), (Some(vec![1]), Some(9)));
    assert_eq!((reply.success, reply.credits_used, reply.id.len()), (true, 0, 36));
    assert!(on_found::<u8, u8, u8>(Ok(None)).unwrap().data.web.is_none());
}

#[test]
fn ids_are_version_4_uuids() {
    let a = search::<u8, u8, u8>(None);
    let b = search::<u8, u8, u8>(None);
    assert_ne!(a.id, b.id);
    for id in [a.id, b.id] {
        assert_eq!(id.len(), 36);
        let parsed = uuid::Uuid::parse_str(&id).unwrap();
        assert_eq!(parsed.get_version_num(), 4);
        assert_eq!(parsed.to_string(), id);
    }
}

#[test]
fn refusals_say_why() {
    assert_eq!(
        invalid_search_request("missing field `query`"),
        CrwError::InvalidRequest("Invalid search request: missing field `query`".to_string())
    );
}

#[test]
fn objects_keep_one_value_per_key() {
    let number = |n: u64| to_json(Value::from(n));
    let mut object = JsonObject::from_members(vec![
        ("a".to_string(), number(1)),
        ("b".to_string(), number(2)),
        ("a".to_string(), number(6)),
    ]);
    assert!(matches!(object.get("a"), Some(Json::Number(n)) if n.as_u64() == Some(6)));
    object.insert("a", number(3));
    object.or_insert("b", number(4));
    object.or_insert("c", number(5));
    assert!(matches!(object.get("a"), Some(Json::Number(n)) if n.as_u64() == Some(3)));
    assert!(matches!(object.remove("c"), Some(Json::Number(n)) if n.as_u64() == Some(5)));
    assert!(object.remove("c").is_none());
    assert_eq!(to_value(Json::Object(object)), value(r#"{"a": 3, "b": 2}"#));
}
