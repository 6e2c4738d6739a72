use pinkbin::advisor::{
    advise_endpoint, dedupe_models, parse_anthropic_models, parse_gemini_models,
    parse_models, parse_ollama_models, parse_openai_models, reply_text, request_body,
    run_model_search,
    start_model_search,
    strip_codefence, Auth, ModelOption, ModelSource, Provider,
};
use pinkbin::json::{parse_json, Json};

fn s(v: &str) -> Json {
    Json::Str(v.to_string())
}

fn obj(members: Vec<(&str, Json)>) -> Json {
    Json::Object(members.into_iter().map(|(k, v)| (k.to_string(), v)).collect())
}

fn opt(id: &str, label: Option<&str>) -> ModelOption {
    ModelOption { id: id.to_string(), label: label.map(|l| l.to_string()) }
}

#[test]
fn parses_and_deduplicates_openai_models() {
    let value = obj(vec![(
        "data",
        Json::Array(vec![
            obj(vec![("id", s("gpt-4o")), ("display_name", s("GPT-4o"))]),
            obj(vec![("id", s("gpt-4o")), ("display_name", s("GPT-4o duplicate"))]),
            obj(vec![("id", s("  ")), ("display_name", s("empty"))]),
        ]),
    )]);

    let models = parse_openai_models(&value).expect("valid OpenAI response");
    assert_eq!(models.len(), 1);
    assert_eq!(models[0].id, "gpt-4o");
    assert_eq!(models[0].label.as_deref(), Some("GPT-4o"));
}

#[test]
fn parses_anthropic_display_names() {
    let value = obj(vec![(
        "data",
        Json::Array(vec![obj(vec![
            ("id", s("sonnet-4")),
            ("display_name", s("Sonnet 4")),
        ])]),
    )]);

    let models = parse_anthropic_models(&value).expect("valid Anthropic response");
    assert_eq!(models[0].id, "sonnet-4");
    assert_eq!(models[0].label.as_deref(), Some("Sonnet 4"));
}

#[test]
fn filters_gemini_models_without_generate_content() {
    let value = obj(vec![(
        "models",
        Json::Array(vec![
            obj(vec![
                ("name", s("models/gemini-2.5-flash")),
                ("displayName", s("Gemini 2.5 Flash")),
                ("supportedGenerationMethods", Json::Array(vec![s("generateContent")])),
            ]),
            obj(vec![
                ("name", s("models/text-embedding-005")),
                ("supportedGenerationMethods", Json::Array(vec![s("embedContent")])),
            ]),
        ]),
    )]);

    let models = parse_gemini_models(&value).expect("valid Gemini response");
    assert_eq!(models.len(), 1);
    assert_eq!(models[0].id, "gemini-2.5-flash");
}

#[test]
fn parses_ollama_model_names() {
    let value = obj(vec![(
        "models",
        Json::Array(vec![
            obj(vec![("name", s("llama3.2:latest"))]),
            obj(vec![("model", s("qwen2.5:7b"))]),
        ]),
    )]);

    let models = parse_ollama_models(&value).expect("valid Ollama response");
    assert_eq!(
        models.iter().map(|model| model.id.as_str()).collect::<Vec<_>>(),
        ["llama3.2:latest", "qwen2.5:7b"]
    );
}

#[test]
fn parse_json_reads_model_list_text() {
    let value = parse_json(r#"{"data":[{"id":" gpt-4.1 ","display_name":"GPT 4.1"}]}"#)
        .expect("valid JSON");
    let models = parse_openai_models(&value).expect("valid OpenAI response");
    assert_eq!(models.len(), 1);
    assert_eq!(models[0].id, "gpt-4.1");
    assert_eq!(models[0].label.as_deref(), Some("GPT 4.1"));
}

#[test]
fn parse_json_rejects_malformed_text() {
    assert!(parse_json("{not json").is_none());
    assert!(parse_json("").is_none());
}

#[test]
fn missing_array_is_an_error() {
    let value = obj(vec![("models", Json::Array(vec![]))]);
    let err = parse_openai_models(&value).unwrap_err();
    assert_eq!(err.message, "missing data array");
    let err = parse_ollama_models(&obj(vec![])).unwrap_err();
    assert_eq!(err.message, "missing models array");
    assert!(parse_models(ModelSource::Gemini, &s("x")).is_err());
}

#[test]
fn label_equal_to_id_is_dropped() {
    let value = obj(vec![(
        "data",
        Json::Array(vec![obj(vec![("id", s("m1")), ("display_name", s(" m1 "))])]),
    )]);
    let models = parse_openai_models(&value).unwrap();
    assert_eq!(models[0].id, "m1");
    assert_eq!(models[0].label, None);
}

#[test]
fn dedupe_keeps_first_of_each_id() {
    let out = dedupe_models(vec![
        opt("a", Some("first")),
        opt("b", None),
        opt("a", Some("second")),
        opt("c", None),
        opt("b", Some("again")),
    ]);
    let ids: Vec<&str> = out.iter().map(|m| m.id.as_str()).collect();
    assert_eq!(ids, ["a", "b", "c"]);
    assert_eq!(out[0].label.as_deref(), Some("first"));
    assert_eq!(out[1].label, None);
}

#[test]
fn strip_codefence_removes_json_fence() {
    assert_eq!(strip_codefence("  ```json\n{\"a\":1}\n```  "), "{\"a\":1}");
    assert_eq!(strip_codefence("```\n{}\n```"), "{}");
    assert_eq!(strip_codefence("{\"plain\":true}"), "{\"plain\":true}");
    assert_eq!(strip_codefence("   "), "");
}

#[test]
fn advise_endpoints_per_provider() {
    let e = advise_endpoint(&Provider::OpenAI {
        api_key: "k".into(),
        model: "m".into(),
        base_url: "https://api.example.com/v1/".into(),
    });
    assert_eq!(e.url, "https://api.example.com/v1/chat/completions");
    assert!(matches!(e.auth, Auth::Bearer(ref k) if k == "k"));

    let e = advise_endpoint(&Provider::Gemini {
        api_key: "KEY".into(),
        model: "gemini-2.5-flash".into(),
        base_url: "https://g.example.com".into(),
    });
    assert_eq!(
        e.url,
        "https://g.example.com/v1beta/models/gemini-2.5-flash:generateContent?key=KEY"
    );
    assert!(matches!(e.auth, Auth::Unauthenticated));

    let e = advise_endpoint(&Provider::Anthropic {
        api_key: "sk".into(),
        model: "c".into(),
        base_url: "https://a.example.com//".into(),
    });
    assert_eq!(e.url, "https://a.example.com/v1/messages");
    assert!(matches!(e.auth, Auth::AnthropicKey(ref k) if k == "sk"));

    let e = advise_endpoint(&Provider::Ollama {
        base_url: "http://localhost:11434".into(),
        model: "llama".into(),
    });
    assert_eq!(e.url, "http://localhost:11434/api/chat");

    let e = advise_endpoint(&Provider::OpenAIResponses {
        api_key: "r".into(),
        model: "m".into(),
        base_url: "https://o.example.com".into(),
    });
    assert_eq!(e.url, "https://o.example.com/responses");
}

#[test]
fn reply_text_reads_each_provider_format() {
    let openai = Provider::OpenAI { api_key: "k".into(), model: "m".into(), base_url: "u".into() };
    let reply = obj(vec![(
        "choices",
        Json::Array(vec![obj(vec![("message", obj(vec![("content", s("{\"what\":\"x\"}"))]))])]),
    )]);
    assert_eq!(reply_text(&openai, &reply).unwrap(), "{\"what\":\"x\"}");
    assert_eq!(
        reply_text(&openai, &obj(vec![])).unwrap_err().message,
        "openai: missing message.content"
    );

    let anthropic =
        Provider::Anthropic { api_key: "k".into(), model: "m".into(), base_url: "u".into() };
    let reply = obj(vec![(
        "content",
        Json::Array(vec![
            obj(vec![("type", s("thinking")), ("thinking", s("hmm"))]),
            obj(vec![("type", s("text")), ("text", s("part1 "))]),
            obj(vec![("type", s("text")), ("text", s("part2"))]),
        ]),
    )]);
    assert_eq!(reply_text(&anthropic, &reply).unwrap(), "part1 part2");

    let truncated = obj(vec![
        ("content", Json::Array(vec![obj(vec![("type", s("thinking"))])])),
        ("stop_reason", s("max_tokens")),
    ]);
    assert!(reply_text(&anthropic, &truncated)
        .unwrap_err()
        .message
        .contains("stop_reason=max_tokens"));
    let other = obj(vec![("content", Json::Array(vec![])), ("stop_reason", s("end_turn"))]);
    assert_eq!(
        reply_text(&anthropic, &other).unwrap_err().message,
        "anthropic: 没拿到 text block (stop_reason=end_turn)"
    );
    assert_eq!(
        reply_text(&anthropic, &obj(vec![])).unwrap_err().message,
        "anthropic: 没拿到 text block (stop_reason=unknown)"
    );

    let ollama = Provider::Ollama { base_url: "u".into(), model: "m".into() };
    let reply = obj(vec![("message", obj(vec![("content", s("ok"))]))]);
    assert_eq!(reply_text(&ollama, &reply).unwrap(), "ok");

    let gemini = Provider::Gemini { api_key: "k".into(), model: "m".into(), base_url: "u".into() };
    let reply = obj(vec![(
        "candidates",
        Json::Array(vec![obj(vec![(
            "content",
            obj(vec![("parts", Json::Array(vec![obj(vec![("text", s("g"))])]))]),
        )])]),
    )]);
    assert_eq!(reply_text(&gemini, &reply).unwrap(), "g");
}

#[test]
fn model_search_without_key_only_asks_ollama() {
    let mut search = start_model_search(Some("   "), " http://localhost:11434/ ").unwrap();
    assert_eq!(search.queries.len(), 1);
    assert_eq!(search.queries[0].url, "http://localhost:11434/api/tags");
    assert!(matches!(search.queries[0].auth, Auth::Unauthenticated));
    let r = search.record(None).expect("last source answers");
    assert_eq!(
        r.unwrap_err().message,
        "未获取到可用模型列表（已尝试：Ollama /api/tags）"
    );
}

#[test]
fn model_search_with_key_tries_sources_in_order() {
    let mut search = start_model_search(Some(" sk-1 "), "https://api.example.com").unwrap();
    let urls: Vec<&str> = search.queries.iter().map(|q| q.url.as_str()).collect();
    assert_eq!(
        urls,
        [
            "https://api.example.com/models",
            "https://api.example.com/v1/models",
            "https://api.example.com/v1beta/models",
            "https://api.example.com/api/tags",
        ]
    );
    assert!(matches!(search.current().auth, Auth::Bearer(ref k) if k == "sk-1"));
    // OpenAI fails to answer, Anthropic's reply has no list.
    assert!(search.record(None).is_none());
    assert!(search.record(Some(&obj(vec![]))).is_none());
    assert!(matches!(search.current().auth, Auth::QueryKey(ref k) if k == "sk-1"));
    let reply = obj(vec![(
        "models",
        Json::Array(vec![obj(vec![
            ("name", s("models/gemini-pro")),
            ("supportedGenerationMethods", Json::Array(vec![s("generateContent")])),
        ])]),
    )]);
    let models = search.record(Some(&reply)).unwrap().unwrap();
    assert_eq!(models.len(), 1);
    assert_eq!(models[0].id, "gemini-pro");
}

#[test]
fn model_search_all_failures_are_listed() {
    let mut search = start_model_search(Some("k"), "http://h").unwrap();
    assert!(search.record(None).is_none());
    assert!(search.record(None).is_none());
    assert!(search.record(None).is_none());
    let r = search.record(None).unwrap();
    assert_eq!(
        r.unwrap_err().message,
        "未获取到可用模型列表（已尝试：OpenAI /models、Anthropic /v1/models、Gemini /v1beta/models、Ollama /api/tags）"
    );
}

#[test]
fn model_search_rejects_blank_base_url() {
    match start_model_search(None, " / ") {
        Err(e) => assert_eq!(e.message, "base URL is empty"),
        Ok(_) => panic!("a blank base URL starts no search"),
    }
}

#[test]
fn whole_search_stops_at_first_readable_list() {
    let ollama = || obj(vec![("models", Json::Array(vec![obj(vec![("name", s("llama3"))])]))]);
    let replies = vec![None, Some(obj(vec![])), None, Some(ollama()), Some(ollama())];
    let (answer, urls) = run_model_search(Some("k"), "http://h/", &replies);
    assert_eq!(urls, ["http://h/models", "http://h/v1/models", "http://h/v1beta/models", "http://h/api/tags"]);
    let models = answer.unwrap().unwrap();
    assert_eq!(models.iter().map(|m| m.id.as_str()).collect::<Vec<_>>(), ["llama3"]);
}

#[test]
fn whole_search_reports_every_source_or_runs_out() {
    let (answer, urls) = run_model_search(None, "http://h", &vec![None, None]);
    assert_eq!(urls, ["http://h/api/tags"]);
    assert_eq!(answer.unwrap().unwrap_err().message, "未获取到可用模型列表（已尝试：Ollama /api/tags）");
    let (answer, urls) = run_model_search(Some("k"), "http://h", &vec![None]);
    assert!(answer.is_none());
    assert_eq!(urls.len(), 1);
    let (answer, urls) = run_model_search(Some("k"), "  ", &vec![None]);
    assert_eq!(answer.unwrap().unwrap_err().message, "base URL is empty");
    assert!(urls.is_empty());
}

fn member<'a>(j: &'a Json, key: &str) -> &'a Json {
    match j {
        Json::Object(fields) => &fields.iter().find(|(k, _)| k == key).expect("member present").1,
        _ => panic!("not an object"),
    }
}

fn keys(j: &Json) -> Vec<&str> {
    match j {
        Json::Object(fields) => fields.iter().map(|(k, _)| k.as_str()).collect(),
        _ => panic!("not an object"),
    }
}

fn text(j: &Json) -> &str {
    match j {
        Json::Str(s) => s.as_str(),
        _ => panic!("not a string"),
    }
}

#[test]
fn request_bodies_carry_instructions_and_prompt_only() {
    let anthropic = Provider::Anthropic { api_key: "k".into(), model: "m1".into(), base_url: "b".into() };
    let body = request_body(&anthropic, "SYS", "{\"path\":\"x\"}");
    assert_eq!(keys(&body), ["model", "max_tokens", "system", "messages"]);
    assert_eq!(text(member(&body, "model")), "m1");
    assert!(matches!(member(&body, "max_tokens"), Json::Number(Some(2048))));
    assert_eq!(text(member(&body, "system")), "SYS");
    match member(&body, "messages") {
        Json::Array(ms) => {
            assert_eq!(ms.len(), 1);
            assert_eq!(text(member(&ms[0], "role")), "user");
            assert_eq!(text(member(&ms[0], "content")), "{\"path\":\"x\"}");
        }
        _ => panic!("messages is an array"),
    }
    let gemini = Provider::Gemini { api_key: "k".into(), model: "g".into(), base_url: "b".into() };
    let body = request_body(&gemini, "SYS", "P");
    assert_eq!(keys(&body), ["systemInstruction", "contents", "generationConfig"]);
    let config = member(&body, "generationConfig");
    assert_eq!(text(member(config, "responseMimeType")), "application/json");
    assert!(matches!(member(config, "temperature"), Json::NumberText(t) if t == "0.2"));
    let ollama = Provider::Ollama { base_url: "b".into(), model: "llama3".into() };
    let body = request_body(&ollama, "SYS", "P");
    assert_eq!(keys(&body), ["model", "format", "stream", "messages"]);
    assert!(matches!(member(&body, "stream"), Json::Bool(false)));
}
