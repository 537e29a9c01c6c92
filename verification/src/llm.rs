//! Resolution of the chat-completion endpoint, key and model from the
//! settings, the chat message list, the connection test's checks and the
//! reading of a reply.

use vstd::prelude::*;
use crate::json::{Json, JsonV, items_view, lemma_members_view, members_view};
use crate::text::{chars_of, decimal, matches_at, push_decimal, push_str, string_of_chars};

verus! {

/// The string member `key` of `v`, or the empty string when it is missing or
/// not a string.
pub open spec fn str_member(v: JsonV, key: Seq<char>) -> Seq<char> {
    match v.get(key) {
        Some(JsonV::Str(s)) => s,
        _ => Seq::empty(),
    }
}

/// The string member `key` of `v`, or the empty string when it is missing or
/// not a string.
pub fn s(v: &Json, key: &str) -> (res: String)
    ensures
        res@ == str_member(v@, key@),
{
    proof {
        reveal_strlit("");
    }
    match v.get(key) {
        Some(Json::Str(x)) => x.clone(),
        _ => "".to_owned(),
    }
}

/// Where and how to reach a chat-completion service.
pub struct ProviderConfig {
    pub endpoint: String,
    pub api_key: String,
    pub model: String,
}

impl View for ProviderConfig {
    type V = (Seq<char>, Seq<char>, Seq<char>);

    open spec fn view(&self) -> (Seq<char>, Seq<char>, Seq<char>) {
        (self.endpoint@, self.api_key@, self.model@)
    }
}

/// The provider that the settings select: the string member `provider`, else `deepseek`.
pub open spec fn provider_name(settings: JsonV) -> Seq<char> {
    match settings.get("provider"@) {
        Some(JsonV::Str(p)) => p,
        _ => "deepseek"@,
    }
}

/// The settings block of provider `name`: member `name` of member `providers`,
/// else an empty object.
pub open spec fn provider_block(settings: JsonV, name: Seq<char>) -> JsonV {
    match settings.get("providers"@) {
        Some(ps) => match ps.get(name) {
            Some(b) => b,
            None => JsonV::Object(Seq::empty()),
        },
        None => JsonV::Object(Seq::empty()),
    }
}

/// `s` without its trailing `/` characters.
pub open spec fn strip_trailing_slashes(s: Seq<char>) -> Seq<char>
    decreases s.len(),
{
    if s.len() > 0 && s.last() == '/' {
        strip_trailing_slashes(s.drop_last())
    } else {
        s
    }
}

/// `value`, or `fallback` when `value` is empty.
pub open spec fn or_default(value: Seq<char>, fallback: Seq<char>) -> Seq<char> {
    if value.len() == 0 {
        fallback
    } else {
        value
    }
}

/// The endpoint, key and model that the settings select, or the message for
/// an unknown provider.
pub open spec fn resolve_spec(settings: JsonV) -> Result<(Seq<char>, Seq<char>, Seq<char>), Seq<char>> {
    let p = provider_name(settings);
    let pc = provider_block(settings, p);
    if p == "openai"@ {
        Ok(
            (
                "https://api.openai.com/v1/chat/completions"@,
                str_member(pc, "apiKey"@),
                or_default(str_member(pc, "model"@), "gpt-4o-mini"@),
            ),
        )
    } else if p == "deepseek"@ {
        Ok(
            (
                "https://api.deepseek.com/v1/chat/completions"@,
                str_member(pc, "apiKey"@),
                or_default(str_member(pc, "model"@), "deepseek-chat"@),
            ),
        )
    } else if p == "ollama"@ {
        Ok(
            (
                or_default(str_member(pc, "ollamaUrl"@), "http://localhost:11434"@)
                    + "/v1/chat/completions"@,
                "ollama"@,
                or_default(str_member(pc, "model"@), "qwen2.5:7b"@),
            ),
        )
    } else if p == "custom"@ {
        let base = strip_trailing_slashes(str_member(pc, "baseUrl"@));
        Ok(
            (
                if base.len() == 0 {
                    Seq::empty()
                } else {
                    base + "/chat/completions"@
                },
                str_member(pc, "apiKey"@),
                or_default(str_member(pc, "customModel"@), str_member(pc, "model"@)),
            ),
        )
    } else {
        Err("未知的 provider: "@ + p)
    }
}

/// Whether the characters of `a` are those of `b`.
fn same_text(a: &Vec<char>, b: &str) -> (res: bool)
    ensures
        res == (a@ == b@),
{
    let bc = chars_of(b);
    assert(a@.subrange(0, a@.len() as int) =~= a@);
    matches_at(a, 0, a.len(), &bc)
}

/// `s` without its trailing `/` characters.
fn trim_trailing_slashes(s: &String) -> (res: String)
    ensures
        res@ == strip_trailing_slashes(s@),
{
    let cs = chars_of(s.as_str());
    let mut n: usize = cs.len();
    assert(cs@.take(n as int) =~= cs@);
    while n > 0 && cs[n - 1] == '/'
        invariant
            n <= cs.len(),
            strip_trailing_slashes(cs@) == strip_trailing_slashes(cs@.take(n as int)),
        decreases n,
    {
        assert(cs@.take(n as int).drop_last() =~= cs@.take(n - 1));
        n = n - 1;
    }
    let mut out: Vec<char> = Vec::new();
    let mut i: usize = 0;
    while i < n
        invariant
            0 <= i <= n <= cs.len(),
            out@ == cs@.take(i as int),
        decreases n - i,
    {
        out.push(cs[i]);
        assert(out@ =~= cs@.take(i + 1));
        i = i + 1;
    }
    string_of_chars(&out)
}

/// `value`, or `fallback` when `value` is empty.
fn or_default_string(value: String, fallback: &str) -> (res: String)
    ensures
        res@ == or_default(value@, fallback@),
{
    if value.as_str().is_empty() {
        fallback.to_owned()
    } else {
        value
    }
}

/// Concatenation of two texts.
fn concat(a: &str, b: &str) -> (res: String)
    ensures
        res@ == a@ + b@,
{
    let mut out: Vec<char> = Vec::new();
    push_str(&mut out, a);
    push_str(&mut out, b);
    assert(out@ =~= a@ + b@);
    string_of_chars(&out)
}

/// Resolves the endpoint, key and model from the settings (a `provider`
/// name and a `providers` map of per-provider blocks).
pub fn resolve(settings: &Json) -> (res: Result<ProviderConfig, String>)
    ensures
        match res {
            Ok(cfg) => resolve_spec(settings@) == Ok::<_, Seq<char>>(cfg@),
            Err(e) => resolve_spec(settings@) == Err::<(Seq<char>, Seq<char>, Seq<char>), _>(e@),
        },
{
    let provider: String = match settings.get("provider") {
        Some(Json::Str(p)) => p.clone(),
        _ => "deepseek".to_owned(),
    };
    let pc: Json = match settings.get("providers") {
        Some(ps) => match ps.get(provider.as_str()) {
            Some(b) => b.deep_clone(),
            None => Json::Object(Vec::new()),
        },
        None => Json::Object(Vec::new()),
    };
    proof {
        lemma_members_view(Seq::<(String, Json)>::empty());
        reveal_strlit("");
    }
    assert(provider@ == provider_name(settings@));
    assert(pc@ == provider_block(settings@, provider@));
    let pcs = chars_of(provider.as_str());
    if same_text(&pcs, "openai") {
        let api_key = s(&pc, "apiKey");
        let model = or_default_string(s(&pc, "model"), "gpt-4o-mini");
        Ok(
            ProviderConfig {
                endpoint: "https://api.openai.com/v1/chat/completions".to_owned(),
                api_key,
                model,
            },
        )
    } else if same_text(&pcs, "deepseek") {
        let api_key = s(&pc, "apiKey");
        let model = or_default_string(s(&pc, "model"), "deepseek-chat");
        Ok(
            ProviderConfig {
                endpoint: "https://api.deepseek.com/v1/chat/completions".to_owned(),
                api_key,
                model,
            },
        )
    } else if same_text(&pcs, "ollama") {
        let base = or_default_string(s(&pc, "ollamaUrl"), "http://localhost:11434");
        let endpoint = concat(base.as_str(), "/v1/chat/completions");
        let model = or_default_string(s(&pc, "model"), "qwen2.5:7b");
        assert(endpoint@ == resolve_spec(settings@)->Ok_0.0);
        Ok(ProviderConfig { endpoint, api_key: "ollama".to_owned(), model })
    } else if same_text(&pcs, "custom") {
        let base = trim_trailing_slashes(&s(&pc, "baseUrl"));
        let endpoint = if base.as_str().is_empty() {
            "".to_owned()
        } else {
            concat(base.as_str(), "/chat/completions")
        };
        let custom_model = s(&pc, "customModel");
        let model = if custom_model.as_str().is_empty() {
            s(&pc, "model")
        } else {
            custom_model
        };
        let api_key = s(&pc, "apiKey");
        assert(endpoint@ == resolve_spec(settings@)->Ok_0.0);
        Ok(ProviderConfig { endpoint, api_key, model })
    } else {
        Err(concat("未知的 provider: ", provider.as_str()))
    }
}


/// The four provider names differ from one another.
proof fn lemma_provider_names_distinct()
    ensures
        "openai"@ != "deepseek"@,
        "openai"@ != "ollama"@,
        "openai"@ != "custom"@,
        "deepseek"@ != "ollama"@,
        "deepseek"@ != "custom"@,
        "ollama"@ != "custom"@,
{
    reveal_strlit("openai");
    reveal_strlit("deepseek");
    reveal_strlit("ollama");
    reveal_strlit("custom");
    assert("openai"@[0] != "deepseek"@[0]);
    assert("openai"@[1] != "ollama"@[1]);
    assert("openai"@[0] != "custom"@[0]);
    assert("deepseek"@[0] != "ollama"@[0]);
    assert("deepseek"@[0] != "custom"@[0]);
    assert("ollama"@[0] != "custom"@[0]);
}

/// For the `openai`, `deepseek` and `ollama` providers, resolution succeeds
/// and uses the model that the provider's block configures, whenever its
/// `model` member is a non-empty string.
pub proof fn law_resolve_takes_configured_model(
    settings: JsonV,
    providers: JsonV,
    p: Seq<char>,
    block: JsonV,
    m: Seq<char>,
)
    requires
        settings.get("provider"@) == Some(JsonV::Str(p)),
        p == "openai"@ || p == "deepseek"@ || p == "ollama"@,
        settings.get("providers"@) == Some(providers),
        providers.get(p) == Some(block),
        block.get("model"@) == Some(JsonV::Str(m)),
        m.len() > 0,
    ensures
        resolve_spec(settings) is Ok,
        resolve_spec(settings)->Ok_0.2 == m,
{
    lemma_provider_names_distinct();
}

/// For the `openai`, `deepseek` and `ollama` providers, a block without a
/// non-empty `model` string resolves to the provider's default model.
pub proof fn law_resolve_default_model(settings: JsonV, providers: JsonV, p: Seq<char>, block: JsonV)
    requires
        settings.get("provider"@) == Some(JsonV::Str(p)),
        p == "openai"@ || p == "deepseek"@ || p == "ollama"@,
        settings.get("providers"@) == Some(providers),
        providers.get(p) == Some(block),
        match block.get("model"@) {
            Some(JsonV::Str(m)) => m.len() == 0,
            _ => true,
        },
    ensures
        resolve_spec(settings) is Ok,
        resolve_spec(settings)->Ok_0.2 == if p == "openai"@ {
            "gpt-4o-mini"@
        } else if p == "deepseek"@ {
            "deepseek-chat"@
        } else {
            "qwen2.5:7b"@
        },
{
    lemma_provider_names_distinct();
}

/// The `openai`, `deepseek` and `custom` providers send the API key that the
/// provider's block holds; `ollama` sends the fixed key `ollama`.
pub proof fn law_resolve_takes_configured_key(
    settings: JsonV,
    providers: JsonV,
    p: Seq<char>,
    block: JsonV,
    k: Seq<char>,
)
    requires
        settings.get("provider"@) == Some(JsonV::Str(p)),
        p == "openai"@ || p == "deepseek"@ || p == "ollama"@ || p == "custom"@,
        settings.get("providers"@) == Some(providers),
        providers.get(p) == Some(block),
        block.get("apiKey"@) == Some(JsonV::Str(k)),
    ensures
        resolve_spec(settings) is Ok,
        resolve_spec(settings)->Ok_0.1 == if p == "ollama"@ {
            "ollama"@
        } else {
            k
        },
{
    lemma_provider_names_distinct();
}

/// The `custom` provider posts to its base URL, with any trailing slashes
/// dropped, followed by `/chat/completions`, and uses the block's
/// `customModel` when that is a non-empty string, else its `model`.
pub proof fn law_resolve_custom(
    settings: JsonV,
    providers: JsonV,
    block: JsonV,
    base: Seq<char>,
    slashes: nat,
)
    requires
        settings.get("provider"@) == Some(JsonV::Str("custom"@)),
        settings.get("providers"@) == Some(providers),
        providers.get("custom"@) == Some(block),
        block.get("baseUrl"@) == Some(JsonV::Str(base + Seq::new(slashes, |i: int| '/'))),
        base.len() > 0,
        base.last() != '/',
    ensures
        resolve_spec(settings) is Ok,
        resolve_spec(settings)->Ok_0.0 == base + "/chat/completions"@,
        resolve_spec(settings)->Ok_0.2 == if str_member(block, "customModel"@).len() > 0 {
            str_member(block, "customModel"@)
        } else {
            str_member(block, "model"@)
        },
{
    lemma_provider_names_distinct();
    lemma_strip_slashes(base, slashes);
}

/// Settings without a `provider` string use `deepseek`; a provider other than
/// the four known ones is refused with a message naming it.
pub proof fn law_resolve_provider_choice(settings: JsonV)
    ensures
        !(settings.get("provider"@) matches Some(JsonV::Str(_))) ==> resolve_spec(settings) is Ok
            && resolve_spec(settings)->Ok_0.0 == "https://api.deepseek.com/v1/chat/completions"@,
        settings.get("provider"@) matches Some(JsonV::Str(p)) ==> (resolve_spec(settings) is Err <==> (
        p != "openai"@ && p != "deepseek"@ && p != "ollama"@ && p != "custom"@)),
        settings.get("provider"@) matches Some(JsonV::Str(p)) ==> (resolve_spec(settings) is Err
            ==> resolve_spec(settings)->Err_0 == "未知的 provider: "@ + p),
{
    lemma_provider_names_distinct();
}

/// Trailing slashes appended to a text that does not end in one are stripped again.
proof fn lemma_strip_slashes(base: Seq<char>, n: nat)
    requires
        base.len() > 0,
        base.last() != '/',
    ensures
        strip_trailing_slashes(base + Seq::new(n, |i: int| '/')) == base,
    decreases n,
{
    let s = base + Seq::new(n, |i: int| '/');
    if n == 0 {
        assert(s =~= base);
    } else {
        assert(s.drop_last() =~= base + Seq::new((n - 1) as nat, |i: int| '/'));
        lemma_strip_slashes(base, (n - 1) as nat);
    }
}

/// A chat message with the given role and content.
pub open spec fn message_v(role: Seq<char>, content: Seq<char>) -> JsonV {
    JsonV::Object(seq![("role"@, JsonV::Str(role)), ("content"@, JsonV::Str(content))])
}

/// One chat message.
fn message(role: &str, content: &str) -> (res: Json)
    ensures
        res@ == message_v(role@, content@),
{
    let fields = vec![
        ("role".to_owned(), Json::str_value(role)),
        ("content".to_owned(), Json::str_value(content)),
    ];
    let res = Json::object(fields);
    assert(members_view(fields@) =~= seq![
        ("role"@, JsonV::Str(role@)),
        ("content"@, JsonV::Str(content@)),
    ]);
    res
}

/// The chat messages for a system prompt and a user prompt.
pub fn messages(system: &str, user: &str) -> (res: Json)
    ensures
        res@ == JsonV::Array(seq![message_v("system"@, system@), message_v("user"@, user@)]),
{
    let items = vec![message("system", system), message("user", user)];
    let res = Json::array(items);
    assert(items_view(items@) =~= seq![message_v("system"@, system@), message_v("user"@, user@)]);
    res
}

/// The chat message list that the connection test sends.
pub fn probe_messages() -> (res: Json)
    ensures
        res@ == JsonV::Array(seq![message_v("user"@, "OK"@)]),
{
    let items = vec![message("user", "OK")];
    let res = Json::array(items);
    assert(items_view(items@) =~= seq![message_v("user"@, "OK"@)]);
    res
}

/// The endpoint, key and model to test, or why the test cannot be made: an
/// unknown provider, or a provider without an endpoint.
pub open spec fn connection_target(settings: JsonV) -> Result<(Seq<char>, Seq<char>, Seq<char>), Seq<char>> {
    match resolve_spec(settings) {
        Ok(cfg) => if cfg.0.len() == 0 {
            Err("端点地址未配置"@)
        } else {
            Ok(cfg)
        },
        Err(e) => Err(e),
    }
}

/// What the connection test checks before it calls the service: the
/// configuration to call, or the error to report.
pub fn connection_test_config(settings: &Json) -> (res: Result<ProviderConfig, String>)
    ensures
        match res {
            Ok(cfg) => connection_target(settings@) == Ok::<_, Seq<char>>(cfg@),
            Err(e) => connection_target(settings@) == Err::<(Seq<char>, Seq<char>, Seq<char>), _>(e@),
        },
{
    match resolve(settings) {
        Ok(cfg) => if cfg.endpoint.as_str().is_empty() {
            Err("端点地址未配置".to_owned())
        } else {
            Ok(cfg)
        },
        Err(e) => Err(e),
    }
}

/// The text of the first choice's message in a chat-completion reply.
pub open spec fn reply_content(data: JsonV) -> Option<Seq<char>> {
    match data.get("choices"@) {
        Some(choices) => match choices.at(0) {
            Some(first) => match first.get("message"@) {
                Some(m) => match m.get("content"@) {
                    Some(JsonV::Str(c)) => Some(c),
                    _ => None,
                },
                None => None,
            },
            None => None,
        },
        None => None,
    }
}

/// The connection test calls exactly what resolution gives when that has an
/// endpoint; a resolved configuration without an endpoint (a custom provider
/// without a base URL) is refused, and so is an unknown provider.
pub proof fn law_connection_test_needs_endpoint(settings: JsonV, providers: JsonV, block: JsonV)
    ensures
        resolve_spec(settings) is Ok && resolve_spec(settings)->Ok_0.0.len() > 0 ==> connection_target(
            settings,
        ) == resolve_spec(settings),
        resolve_spec(settings) is Ok && resolve_spec(settings)->Ok_0.0.len() == 0 ==> connection_target(
            settings,
        ) == Err::<(Seq<char>, Seq<char>, Seq<char>), Seq<char>>("端点地址未配置"@),
        resolve_spec(settings) is Err ==> connection_target(settings) == resolve_spec(settings),
        settings.get("provider"@) == Some(JsonV::Str("custom"@)) && settings.get("providers"@) == Some(
            providers,
        ) && providers.get("custom"@) == Some(block) && block.get("baseUrl"@) is None
            ==> connection_target(settings) == Err::<(Seq<char>, Seq<char>, Seq<char>), Seq<char>>(
            "端点地址未配置"@,
        ),
{
    lemma_provider_names_distinct();
}

/// The text of a reply is the `content` string of the `message` of the first
/// element of its `choices`; a reply without it has none.
pub proof fn law_reply_is_first_choice(data: JsonV, choices: JsonV, first: JsonV, message: JsonV)
    ensures
        data.get("choices"@) == Some(choices) && choices.at(0) == Some(first) && first.get("message"@)
            == Some(message) ==> reply_content(data) == match message.get("content"@) {
            Some(JsonV::Str(c)) => Some(c),
            _ => None,
        },
        data.get("choices"@) is None ==> reply_content(data) is None,
        data.get("choices"@) == Some(choices) && choices.at(0) is None ==> reply_content(data) is None,
{
}

/// The text of a chat-completion reply, or the error for a reply without one.
pub fn extract_reply(data: &Json) -> (res: Result<String, String>)
    ensures
        match res {
            Ok(c) => reply_content(data@) == Some(c@),
            Err(e) => reply_content(data@) is None && e@ == "响应中没有内容"@,
        },
{
    if let Some(choices) = data.get("choices") {
        if let Some(first) = choices.at(0) {
            if let Some(m) = first.get("message") {
                if let Some(Json::Str(c)) = m.get("content") {
                    return Ok(c.clone());
                }
            }
        }
    }
    Err("响应中没有内容".to_owned())
}

/// The error for a reply with a failure status: the status code and the body.
pub fn api_error_message(status: u16, body: &str) -> (res: String)
    ensures
        res@ == "API 请求失败 ("@ + decimal(status as nat) + "): "@ + body@,
{
    let mut out: Vec<char> = Vec::new();
    push_str(&mut out, "API 请求失败 (");
    push_decimal(&mut out, status as u64);
    push_str(&mut out, "): ");
    push_str(&mut out, body);
    string_of_chars(&out)
}

} // verus!
