use moss::providers::local::LocalMock;
use moss::providers::remote::openrouter::{
    dotenv_to_apply, parse_dotenv, ContentItem, MessageContent, OpenRouter, ProviderEnv,
};
use moss::providers::{provider_retry_delay, Message, Role};

fn entries(text: &str) -> Vec<(String, String)> {
    parse_dotenv(text).into_iter().map(|e| (e.key, e.value)).collect()
}

fn pair(k: &str, v: &str) -> (String, String) {
    (k.to_string(), v.to_string())
}

#[test]
fn dotenv_reads_assignments() {
    let text = "# comment\nOPENROUTER_API_KEY=abc\n\n  MODEL = \"x/y\"  \nNAME='app'\nnot an assignment\n=novalue\n";
    assert_eq!(
        entries(text),
        vec![pair("OPENROUTER_API_KEY", "abc"), pair("MODEL", "x/y"), pair("NAME", "app")]
    );
}

#[test]
fn dotenv_splits_at_first_equals_and_strips_quotes() {
    assert_eq!(entries("URL=https://a.b/?x=1"), vec![pair("URL", "https://a.b/?x=1")]);
    assert_eq!(entries("Q=\"'both'\""), vec![pair("Q", "both")]);
    assert_eq!(entries("E="), vec![pair("E", "")]);
    assert_eq!(entries("W=  spaced value  \r\n"), vec![pair("W", "spaced value")]);
}

#[test]
fn dotenv_of_empty_text_is_empty() {
    assert!(entries("").is_empty());
    assert!(entries("\n\n#x=1\n").is_empty());
}

fn env(key: Option<&str>) -> ProviderEnv {
    ProviderEnv {
        api_key: key.map(|s| s.to_string()),
        base_url: None,
        app_url: Some("https://moss.local".to_string()),
        app_name: Some("Moss".to_string()),
    }
}

#[test]
fn provider_needs_an_api_key() {
    let err = OpenRouter::new(None, None, env(None)).unwrap_err();
    assert_eq!(err, "OpenRouter API key is required (OPENROUTER_API_KEY)");
}

#[test]
fn provider_defaults_and_key_precedence() {
    let p = OpenRouter::new(None, Some("given".to_string()), env(Some("from-env"))).unwrap();
    assert_eq!(p.api_key, "given");
    assert_eq!(p.base_url, "https://openrouter.ai/api/v1");
    assert_eq!(p.model, "google/gemini-3-flash-preview");
    assert_eq!(p.timeout_secs, 60);
    let p = OpenRouter::new(Some("m".to_string()), None, env(Some("from-env"))).unwrap();
    assert_eq!(p.api_key, "from-env");
    assert_eq!(p.model, "m");
}

#[test]
fn completions_url_drops_trailing_slashes() {
    let mut e = env(Some("k"));
    e.base_url = Some("http://localhost:8080/v1//".to_string());
    let p = OpenRouter::new(None, None, e).unwrap();
    assert_eq!(p.chat_completions_url(), "http://localhost:8080/v1/chat/completions");
    let p = OpenRouter::new(None, None, env(Some("k"))).unwrap();
    assert_eq!(p.chat_completions_url(), "https://openrouter.ai/api/v1/chat/completions");
}

#[test]
fn request_headers() {
    let p = OpenRouter::new(None, None, env(Some("sk"))).unwrap();
    let h: Vec<(String, String)> =
        p.header_entries().into_iter().map(|h| (h.name, h.value)).collect();
    assert_eq!(
        h,
        vec![
            pair("Authorization", "Bearer sk"),
            pair("content-type", "application/json"),
            pair("Referer", "https://moss.local"),
            pair("X-OpenRouter-Title", "Moss"),
        ]
    );
}

#[test]
fn content_text_of_each_shape() {
    assert_eq!(OpenRouter::extract_content_text(&MessageContent::Text("hi".to_string())), "hi");
    assert_eq!(OpenRouter::extract_content_text(&MessageContent::Other("42".to_string())), "42");
    let parts = MessageContent::Parts(vec![
        ContentItem::Object { text: Some("\"Hello, \"".to_string()), content: None },
        ContentItem::NonObject,
        ContentItem::Object { text: None, content: Some("\"world\"".to_string()) },
        ContentItem::Object { text: Some("7".to_string()), content: Some("\"x\"".to_string()) },
    ]);
    assert_eq!(OpenRouter::extract_content_text(&parts), "Hello, world7");
}

#[test]
fn mock_echoes_last_user_message() {
    let m = LocalMock::new();
    let msgs = vec![
        Message { role: Role::User, content: "first".to_string() },
        Message { role: Role::Assistant, content: "reply".to_string() },
        Message { role: Role::User, content: "second".to_string() },
        Message { role: Role::System, content: "sys".to_string() },
    ];
    assert_eq!(m.reply(&msgs), "echo: second");
    assert_eq!(m.source(), "local-mock");
}

#[test]
fn request_headers_without_app_settings() {
    let mut e = env(Some("sk"));
    e.app_url = None;
    e.app_name = None;
    let p = OpenRouter::new(None, None, e).unwrap();
    let h: Vec<(String, String)> =
        p.header_entries().into_iter().map(|h| (h.name, h.value)).collect();
    assert_eq!(h, vec![pair("Authorization", "Bearer sk"), pair("content-type", "application/json")]);
    let mut e = env(Some("sk"));
    e.app_url = None;
    let p = OpenRouter::new(None, None, e).unwrap();
    let h: Vec<(String, String)> =
        p.header_entries().into_iter().map(|h| (h.name, h.value)).collect();
    assert_eq!(
        h,
        vec![
            pair("Authorization", "Bearer sk"),
            pair("content-type", "application/json"),
            pair("X-OpenRouter-Title", "Moss"),
        ]
    );
}

#[test]
fn dotenv_never_overrides_a_variable() {
    let parsed = parse_dotenv("A=1\nB=2\nA=3\nC=4\n");
    let applied: Vec<(String, String)> = dotenv_to_apply(parsed, vec!["C".to_string()])
        .into_iter()
        .map(|e| (e.key, e.value))
        .collect();
    assert_eq!(applied, vec![pair("A", "1"), pair("B", "2")]);
}

#[test]
fn provider_retries_back_off_exponentially() {
    assert_eq!(provider_retry_delay(0, 0), Some(500));
    assert_eq!(provider_retry_delay(1, 7), Some(1007));
    assert_eq!(provider_retry_delay(2, 1234), Some(2234));
    assert_eq!(provider_retry_delay(3, 0), None);
    assert_eq!(provider_retry_delay(u32::MAX, 5), None);
}
