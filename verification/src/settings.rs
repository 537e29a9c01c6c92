//! Settings normalisation: per-provider defaults, migration of the legacy
//! flat settings layout, and what loading stored settings yields.

use vstd::prelude::*;
use crate::json::{
    Json, JsonV, find_member, keys_of, overlay, overlay_members, law_put_then_lookup,
    lemma_lookup_member, lemma_lookup_present, lemma_members_view, lookup, members_view, put,
    put_member, unique_keys, keeps_key_prefix, lemma_put_shape, lemma_put_same,
    lemma_keeps_key_prefix_trans, lemma_overlay_shape, lemma_overlay_fixed,
};
use crate::llm::{provider_name, resolve_spec};

verus! {

/// A member whose value is a string.
pub open spec fn str_field(key: Seq<char>, value: Seq<char>) -> (Seq<char>, JsonV) {
    (key, JsonV::Str(value))
}

/// The default settings of each provider, by provider key.
pub open spec fn default_blocks() -> Seq<(Seq<char>, Seq<(Seq<char>, JsonV)>)> {
    seq![
        ("custom"@, seq![str_field("apiKey"@, ""@), str_field("baseUrl"@, ""@), str_field("model"@, ""@)]),
        ("deepseek"@, seq![str_field("apiKey"@, ""@), str_field("model"@, "deepseek-chat"@)]),
        ("ollama"@, seq![str_field("model"@, "qwen2.5:7b"@), str_field("ollamaUrl"@, "http://localhost:11434"@)]),
        ("openai"@, seq![str_field("apiKey"@, ""@), str_field("model"@, "gpt-4o-mini"@)]),
    ]
}

/// The default blocks as the members of a `providers` object.
pub open spec fn default_provider_members() -> Seq<(Seq<char>, JsonV)> {
    default_blocks().map_values(
        |b: (Seq<char>, Seq<(Seq<char>, JsonV)>)| (b.0, JsonV::Object(b.1)),
    )
}

/// The view of one default block.
pub open spec fn block_view(b: (String, Vec<(String, Json)>)) -> (Seq<char>, Seq<(Seq<char>, JsonV)>) {
    (b.0@, members_view(b.1@))
}

/// A member whose value is a string.
fn str_member_of(key: &str, value: &str) -> (res: (String, Json))
    ensures
        res.0@ == key@,
        res.1@ == JsonV::Str(value@),
{
    (key.to_owned(), Json::Str(value.to_owned()))
}

/// The default settings of each provider.
fn default_block_list() -> (res: Vec<(String, Vec<(String, Json)>)>)
    ensures
        res@.map_values(|b: (String, Vec<(String, Json)>)| block_view(b)) == default_blocks(),
{
    let custom = vec![
        str_member_of("apiKey", ""),
        str_member_of("baseUrl", ""),
        str_member_of("model", ""),
    ];
    let deepseek = vec![str_member_of("apiKey", ""), str_member_of("model", "deepseek-chat")];
    let ollama = vec![
        str_member_of("model", "qwen2.5:7b"),
        str_member_of("ollamaUrl", "http://localhost:11434"),
    ];
    let openai = vec![str_member_of("apiKey", ""), str_member_of("model", "gpt-4o-mini")];
    proof {
        lemma_members_view(custom@);
        lemma_members_view(deepseek@);
        lemma_members_view(ollama@);
        lemma_members_view(openai@);
        assert(members_view(custom@) =~= default_blocks()[0].1);
        assert(members_view(deepseek@) =~= default_blocks()[1].1);
        assert(members_view(ollama@) =~= default_blocks()[2].1);
        assert(members_view(openai@) =~= default_blocks()[3].1);
    }
    let res = vec![
        ("custom".to_owned(), custom),
        ("deepseek".to_owned(), deepseek),
        ("ollama".to_owned(), ollama),
        ("openai".to_owned(), openai),
    ];
    assert(res@.map_values(|b: (String, Vec<(String, Json)>)| block_view(b)) =~= default_blocks());
    res
}

/// The default `providers` object: each provider's default settings.
pub fn default_provider_configs() -> (res: Json)
    ensures
        res@ == JsonV::Object(default_provider_members()),
{
    let blocks = default_block_list();
    let ghost bv = blocks@.map_values(|b: (String, Vec<(String, Json)>)| block_view(b));
    let mut fields: Vec<(String, Json)> = Vec::new();
    let mut i: usize = 0;
    while i < blocks.len()
        invariant
            0 <= i <= blocks.len(),
            bv == blocks@.map_values(|b: (String, Vec<(String, Json)>)| block_view(b)),
            bv == default_blocks(),
            fields@.len() == i,
            forall|j: int|
                0 <= j < i ==> #[trigger] fields@[j].0@ == default_provider_members()[j].0
                    && fields@[j].1@ == default_provider_members()[j].1,
        decreases blocks.len() - i,
    {
        let mut block: Vec<(String, Json)> = Vec::new();
        let mut k: usize = 0;
        while k < blocks[i].1.len()
            invariant
                0 <= k <= blocks@[i as int].1@.len(),
                i < blocks.len(),
                block@.len() == k,
                forall|j: int|
                    0 <= j < k ==> #[trigger] block@[j].0@ == blocks@[i as int].1@[j].0@
                        && block@[j].1@ == blocks@[i as int].1@[j].1@,
            decreases blocks@[i as int].1@.len() - k,
        {
            let v = blocks[i].1[k].1.deep_clone();
            block.push((blocks[i].1[k].0.clone(), v));
            k = k + 1;
        }
        proof {
            lemma_members_view(block@);
            lemma_members_view(blocks@[i as int].1@);
            assert(members_view(block@) =~= members_view(blocks@[i as int].1@));
            assert(bv[i as int] == block_view(blocks@[i as int]));
        }
        fields.push((blocks[i].0.clone(), Json::Object(block)));
        i = i + 1;
    }
    proof {
        lemma_members_view(fields@);
        assert(members_view(fields@) =~= default_provider_members());
    }
    Json::Object(fields)
}

/// The default settings: the `deepseek` provider with every provider's defaults.
pub open spec fn default_settings_v() -> JsonV {
    JsonV::Object(
        seq![
            ("provider"@, JsonV::Str("deepseek"@)),
            ("providers"@, JsonV::Object(default_provider_members())),
        ],
    )
}

/// The default settings.
pub fn default_settings() -> (res: Json)
    ensures
        res@ == default_settings_v(),
{
    let fields = vec![
        ("provider".to_owned(), Json::Str("deepseek".to_owned())),
        ("providers".to_owned(), default_provider_configs()),
    ];
    proof {
        lemma_members_view(fields@);
        assert(members_view(fields@) =~= default_settings_v()->Object_0);
    }
    Json::Object(fields)
}

/// A provider block completed from its defaults: the defaults with the
/// existing members set over them, or the defaults where the block is not an object.
pub open spec fn merged_block(defaults: Seq<(Seq<char>, JsonV)>, existing: JsonV) -> JsonV {
    match existing {
        JsonV::Object(cur) => JsonV::Object(overlay(defaults, cur)),
        _ => JsonV::Object(defaults),
    }
}

/// `providers` with provider `key` completed from `defaults`.
pub open spec fn fill_provider(
    providers: Seq<(Seq<char>, JsonV)>,
    key: Seq<char>,
    defaults: Seq<(Seq<char>, JsonV)>,
) -> Seq<(Seq<char>, JsonV)> {
    match lookup(providers, key) {
        None => put(providers, key, JsonV::Object(defaults)),
        Some(existing) => put(providers, key, merged_block(defaults, existing)),
    }
}

/// `providers` with each provider of `blocks` completed in turn.
pub open spec fn fill_all(
    providers: Seq<(Seq<char>, JsonV)>,
    blocks: Seq<(Seq<char>, Seq<(Seq<char>, JsonV)>)>,
) -> Seq<(Seq<char>, JsonV)>
    decreases blocks.len(),
{
    if blocks.len() == 0 {
        providers
    } else {
        fill_all(fill_provider(providers, blocks[0].0, blocks[0].1), blocks.drop_first())
    }
}

/// The settings with every provider block completed from the defaults, when
/// the settings are an object whose `providers` member is an object; else unchanged.
pub open spec fn with_provider_defaults(raw: JsonV) -> JsonV {
    match raw {
        JsonV::Object(top) => match lookup(top, "providers"@) {
            Some(JsonV::Object(ps)) => JsonV::Object(
                put(top, "providers"@, JsonV::Object(fill_all(ps, default_blocks()))),
            ),
            _ => raw,
        },
        _ => raw,
    }
}

/// The provider blocks with one provider completed from its defaults.
fn fill_provider_exec(providers: &mut Vec<(String, Json)>, key: &str, defaults: &Vec<(String, Json)>)
    ensures
        members_view(final(providers)@) == fill_provider(
            members_view(old(providers)@),
            key@,
            members_view(defaults@),
        ),
{
    let mut def: Vec<(String, Json)> = Vec::new();
    let mut k: usize = 0;
    while k < defaults.len()
        invariant
            0 <= k <= defaults.len(),
            def@.len() == k,
            forall|j: int|
                0 <= j < k ==> #[trigger] def@[j].0@ == defaults@[j].0@ && def@[j].1@
                    == defaults@[j].1@,
        decreases defaults.len() - k,
    {
        let v = defaults[k].1.deep_clone();
        def.push((defaults[k].0.clone(), v));
        k = k + 1;
    }
    proof {
        lemma_members_view(def@);
        lemma_members_view(defaults@);
        assert(members_view(def@) =~= members_view(defaults@));
    }
    match find_member(providers, key) {
        None => {
            put_member(providers, key, Json::Object(def));
        },
        Some(i) => {
            let merged = match &providers[i].1 {
                Json::Object(cur) => {
                    let mut m = def;
                    overlay_members(&mut m, cur);
                    Json::Object(m)
                },
                _ => Json::Object(def),
            };
            put_member(providers, key, merged);
        },
    }
}

/// Completes every provider block in the settings from the defaults, keeping
/// the members already set; settings without a `providers` object are left as they are.
pub fn ensure_provider_defaults(raw: &mut Json)
    ensures
        final(raw)@ == with_provider_defaults(old(raw)@),
{
    let mut taken = Json::Null;
    std::mem::swap(&mut taken, raw);
    *raw = with_defaults(taken);
}

fn with_defaults(raw: Json) -> (res: Json)
    ensures
        res@ == with_provider_defaults(raw@),
{
    match raw {
        Json::Object(mut top) => {
            match find_member(&top, "providers") {
                Some(i) => {
                    match &top[i].1 {
                        Json::Object(ps) => {
                            let mut filled: Vec<(String, Json)> = Vec::new();
                            let mut k: usize = 0;
                            while k < ps.len()
                                invariant
                                    0 <= k <= ps.len(),
                                    filled@.len() == k,
                                    forall|j: int|
                                        0 <= j < k ==> #[trigger] filled@[j].0@ == ps@[j].0@
                                            && filled@[j].1@ == ps@[j].1@,
                                decreases ps.len() - k,
                            {
                                let v = ps[k].1.deep_clone();
                                filled.push((ps[k].0.clone(), v));
                                k = k + 1;
                            }
                            proof {
                                lemma_members_view(filled@);
                                lemma_members_view(ps@);
                                assert(members_view(filled@) =~= members_view(ps@));
                            }
                            let blocks = default_block_list();
                            let ghost bv = blocks@.map_values(
                                |b: (String, Vec<(String, Json)>)| block_view(b),
                            );
                            let ghost psv = members_view(ps@);
                            assert(bv.skip(0) =~= bv);
                            let mut b: usize = 0;
                            while b < blocks.len()
                                invariant
                                    0 <= b <= blocks.len(),
                                    bv == blocks@.map_values(
                                        |b: (String, Vec<(String, Json)>)| block_view(b),
                                    ),
                                    bv == default_blocks(),
                                    fill_all(psv, bv) == fill_all(members_view(filled@), bv.skip(b as int)),
                                decreases blocks.len() - b,
                            {
                                assert(bv.skip(b as int).drop_first() =~= bv.skip(b + 1));
                                assert(bv.skip(b as int)[0] == bv[b as int]);
                                assert(bv[b as int] == block_view(blocks@[b as int]));
                                fill_provider_exec(&mut filled, blocks[b].0.as_str(), &blocks[b].1);
                                b = b + 1;
                            }
                            assert(bv.skip(b as int) =~= Seq::<(Seq<char>, Seq<(Seq<char>, JsonV)>)>::empty());
                            put_member(&mut top, "providers", Json::Object(filled));
                            Json::Object(top)
                        },
                        _ => Json::Object(top),
                    }
                },
                None => Json::Object(top),
            }
        },
        other => other,
    }
}


/// The string member `key` of the settings, if it is one.
pub open spec fn flat_str(raw: JsonV, key: Seq<char>) -> Option<Seq<char>> {
    match raw.get(key) {
        Some(JsonV::Str(v)) => Some(v),
        _ => None,
    }
}

/// Whether `key` names one of the default providers.
pub open spec fn is_default_provider(key: Seq<char>) -> bool {
    default_provider_members().map_values(|m: (Seq<char>, JsonV)| m.0).contains(key)
}

/// Whether migrating `raw` is defined: the legacy `apiKey` and `model`
/// members can only be moved into one of the default providers' blocks.
pub open spec fn migratable(raw: JsonV) -> bool {
    flat_str(raw, "apiKey"@) is Some || flat_str(raw, "model"@) is Some ==> is_default_provider(
        provider_name(raw),
    )
}

/// `blocks` with member `key` of provider `provider`'s block set to the
/// string `value`.
pub open spec fn set_in_block(
    blocks: Seq<(Seq<char>, JsonV)>,
    provider: Seq<char>,
    key: Seq<char>,
    value: Seq<char>,
) -> Seq<(Seq<char>, JsonV)> {
    match lookup(blocks, provider) {
        Some(JsonV::Object(f)) => put(blocks, provider, JsonV::Object(put(f, key, JsonV::Str(value)))),
        _ => blocks,
    }
}

/// `blocks` with a legacy member moved into a provider block, when the legacy
/// settings hold it as a string.
pub open spec fn move_legacy(
    blocks: Seq<(Seq<char>, JsonV)>,
    raw: JsonV,
    legacy: Seq<char>,
    provider: Seq<char>,
    key: Seq<char>,
) -> Seq<(Seq<char>, JsonV)> {
    match flat_str(raw, legacy) {
        Some(v) => set_in_block(blocks, provider, key, v),
        None => blocks,
    }
}

/// The legacy flat settings in the per-provider layout: the chosen provider,
/// the defaults of every provider, and the legacy key, model, Ollama URL and
/// custom endpoint and model moved into their blocks.
pub open spec fn migrate_spec(raw: JsonV) -> JsonV {
    let p = provider_name(raw);
    let b0 = default_provider_members();
    let b1 = move_legacy(b0, raw, "apiKey"@, p, "apiKey"@);
    let b2 = move_legacy(b1, raw, "model"@, p, "model"@);
    let b3 = move_legacy(b2, raw, "ollamaUrl"@, "ollama"@, "ollamaUrl"@);
    let b4 = move_legacy(b3, raw, "customEndpoint"@, "custom"@, "baseUrl"@);
    let b5 = move_legacy(b4, raw, "customModel"@, "custom"@, "model"@);
    JsonV::Object(seq![("provider"@, JsonV::Str(p)), ("providers"@, JsonV::Object(b5))])
}

/// The provider key that migration moves the legacy key and model to.
pub fn migrated_provider_key(raw: &Json) -> (res: String)
    ensures
        res@ == provider_name(raw@),
{
    match raw.get("provider") {
        Some(Json::Str(p)) => p.clone(),
        _ => "deepseek".to_owned(),
    }
}

/// Moves a legacy string member into a provider block.
fn move_legacy_exec(
    blocks: &mut Vec<(String, Json)>,
    raw: &Json,
    legacy: &str,
    provider: &str,
    key: &str,
)
    ensures
        members_view(final(blocks)@) == move_legacy(
            members_view(old(blocks)@),
            raw@,
            legacy@,
            provider@,
            key@,
        ),
{
    if let Some(Json::Str(v)) = raw.get(legacy) {
        if let Some(i) = find_member(blocks, provider) {
            if let Json::Object(f) = &blocks[i].1 {
                let mut nf: Vec<(String, Json)> = Vec::new();
                let mut k: usize = 0;
                while k < f.len()
                    invariant
                        0 <= k <= f.len(),
                        nf@.len() == k,
                        forall|j: int|
                            0 <= j < k ==> #[trigger] nf@[j].0@ == f@[j].0@ && nf@[j].1@ == f@[j].1@,
                    decreases f.len() - k,
                {
                    let c = f[k].1.deep_clone();
                    nf.push((f[k].0.clone(), c));
                    k = k + 1;
                }
                proof {
                    lemma_members_view(nf@);
                    lemma_members_view(f@);
                    assert(members_view(nf@) =~= members_view(f@));
                }
                put_member(&mut nf, key, Json::Str(v.clone()));
                put_member(blocks, provider, Json::Object(nf));
            }
        }
    }
}

/// Converts legacy flat settings (key and model at the top level) to the
/// per-provider layout.
pub fn migrate_flat(raw: &Json) -> (res: Json)
    requires
        migratable(raw@),
    ensures
        res@ == migrate_spec(raw@),
{
    let provider = migrated_provider_key(raw);
    let mut blocks = match default_provider_configs() {
        Json::Object(f) => f,
        _ => Vec::new(),
    };
    move_legacy_exec(&mut blocks, raw, "apiKey", provider.as_str(), "apiKey");
    move_legacy_exec(&mut blocks, raw, "model", provider.as_str(), "model");
    move_legacy_exec(&mut blocks, raw, "ollamaUrl", "ollama", "ollamaUrl");
    move_legacy_exec(&mut blocks, raw, "customEndpoint", "custom", "baseUrl");
    move_legacy_exec(&mut blocks, raw, "customModel", "custom", "model");
    let fields = vec![
        ("provider".to_owned(), Json::Str(provider)),
        ("providers".to_owned(), Json::Object(blocks)),
    ];
    proof {
        lemma_members_view(fields@);
        assert(members_view(fields@) =~= migrate_spec(raw@)->Object_0);
    }
    Json::Object(fields)
}


/// The value of an optional document.
pub open spec fn opt_view(o: Option<Json>) -> Option<JsonV> {
    match o {
        Some(j) => Some(j@),
        None => None,
    }
}

/// What loading yields from the stored settings (`None` when there are none
/// or they cannot be read as JSON), and whether the result is to be written back.
pub open spec fn loaded_settings(stored: Option<JsonV>) -> (JsonV, bool) {
    match stored {
        None => (default_settings_v(), false),
        Some(raw) => if raw.get("providers"@) is None {
            (migrate_spec(raw), true)
        } else {
            (with_provider_defaults(raw), false)
        },
    }
}

/// Whether loading the stored settings is defined (see [`migratable`]).
pub open spec fn loadable(stored: Option<JsonV>) -> bool {
    match stored {
        Some(raw) => raw.get("providers"@) is None ==> migratable(raw),
        None => true,
    }
}

/// The settings that loading yields from what was stored, and whether they
/// are to be written back (after a migration of the legacy layout).
pub fn settings_from_stored(stored: Option<Json>) -> (res: (Json, bool))
    requires
        loadable(opt_view(stored)),
    ensures
        (res.0@, res.1) == loaded_settings(opt_view(stored)),
{
    match stored {
        None => (default_settings(), false),
        Some(raw) => {
            if raw.get("providers").is_none() {
                (migrate_flat(&raw), true)
            } else {
                let mut raw = raw;
                ensure_provider_defaults(&mut raw);
                (raw, false)
            }
        },
    }
}

/// Whether a migration is needed and defined for the stored settings; a
/// caller tests this before loading.
#[verifier::loop_isolation(false)]
pub fn can_load(stored: &Option<Json>) -> (res: bool)
    ensures
        res == loadable(opt_view(*stored)),
{
    match stored {
        None => true,
        Some(raw) => {
            if raw.get("providers").is_some() {
                return true;
            }
            let has_legacy = match raw.get("apiKey") {
                Some(Json::Str(_)) => true,
                _ => false,
            } || match raw.get("model") {
                Some(Json::Str(_)) => true,
                _ => false,
            };
            if !has_legacy {
                return true;
            }
            let p = migrated_provider_key(raw);
            let defaults = match default_provider_configs() {
                Json::Object(f) => f,
                _ => Vec::new(),
            };
            proof {
                lemma_members_view(defaults@);
            }
            let ghost keys = default_provider_members().map_values(|m: (Seq<char>, JsonV)| m.0);
            let mut i: usize = 0;
            while i < defaults.len()
                invariant
                    0 <= i <= defaults.len(),
                    keys == default_provider_members().map_values(|m: (Seq<char>, JsonV)| m.0),
                    members_view(defaults@) == default_provider_members(),
                    members_view(defaults@).len() == defaults.len(),
                    forall|j: int|
                        0 <= j < defaults.len() ==> #[trigger] members_view(defaults@)[j] == (
                            defaults@[j].0@,
                            defaults@[j].1@,
                        ),
                    forall|j: int| 0 <= j < i ==> keys[j] != p@,
                decreases defaults.len() - i,
            {
                if defaults[i].0 == p {
                    assert(members_view(defaults@)[i as int].0 == p@);
                    assert(keys[i as int] == p@);
                    assert(keys.contains(p@));
                    return true;
                }
                i = i + 1;
            }
            false
        },
    }
}


/// A key present before setting members over `base` is present after.
proof fn lemma_overlay_keeps(
    base: Seq<(Seq<char>, JsonV)>,
    top: Seq<(Seq<char>, JsonV)>,
    k: Seq<char>,
)
    requires
        lookup(base, k) is Some,
    ensures
        lookup(overlay(base, top), k) is Some,
    decreases top.len(),
{
    if top.len() > 0 {
        law_put_then_lookup(base, top[0].0, top[0].1, k);
        lemma_overlay_keeps(put(base, top[0].0, top[0].1), top.drop_first(), k);
    }
}

/// Setting members whose keys differ from `k` leaves `k`'s value unchanged.
proof fn lemma_overlay_other(
    base: Seq<(Seq<char>, JsonV)>,
    top: Seq<(Seq<char>, JsonV)>,
    k: Seq<char>,
)
    requires
        !keys_of(top).contains(k),
    ensures
        lookup(overlay(base, top), k) == lookup(base, k),
    decreases top.len(),
{
    if top.len() > 0 {
        assert(keys_of(top)[0] == top[0].0);
        law_put_then_lookup(base, top[0].0, top[0].1, k);
        assert forall|j: int| 0 <= j < top.drop_first().len() implies keys_of(top.drop_first())[j]
            != k by {
            assert(keys_of(top.drop_first())[j] == keys_of(top)[j + 1]);
        }
        lemma_overlay_other(put(base, top[0].0, top[0].1), top.drop_first(), k);
    }
}

/// With unique keys on top, every member set over `base` keeps its value.
proof fn lemma_overlay_takes_top(
    base: Seq<(Seq<char>, JsonV)>,
    top: Seq<(Seq<char>, JsonV)>,
    i: int,
)
    requires
        unique_keys(top),
        0 <= i < top.len(),
    ensures
        lookup(overlay(base, top), top[i].0) == Some(top[i].1),
    decreases top.len(),
{
    let rest = top.drop_first();
    assert(unique_keys(rest)) by {
        assert forall|a: int, b: int|
            0 <= a < b < rest.len() implies #[trigger] rest[a].0 != #[trigger] rest[b].0 by {
            assert(rest[a] == top[a + 1]);
            assert(rest[b] == top[b + 1]);
        }
    }
    if i == 0 {
        law_put_then_lookup(base, top[0].0, top[0].1, top[0].0);
        assert forall|j: int| 0 <= j < rest.len() implies keys_of(rest)[j] != top[0].0 by {
            assert(rest[j] == top[j + 1]);
        }
        lemma_overlay_other(put(base, top[0].0, top[0].1), rest, top[0].0);
    } else {
        assert(rest[i - 1] == top[i]);
        lemma_overlay_takes_top(put(base, top[0].0, top[0].1), rest, i - 1);
    }
}

/// Completing the blocks of other providers leaves provider `k` unchanged.
proof fn lemma_fill_all_other(
    ps: Seq<(Seq<char>, JsonV)>,
    blocks: Seq<(Seq<char>, Seq<(Seq<char>, JsonV)>)>,
    k: Seq<char>,
)
    requires
        forall|j: int| 0 <= j < blocks.len() ==> #[trigger] blocks[j].0 != k,
    ensures
        lookup(fill_all(ps, blocks), k) == lookup(ps, k),
    decreases blocks.len(),
{
    if blocks.len() > 0 {
        let b = blocks[0];
        match lookup(ps, b.0) {
            None => law_put_then_lookup(ps, b.0, JsonV::Object(b.1), k),
            Some(e) => law_put_then_lookup(ps, b.0, merged_block(b.1, e), k),
        }
        assert forall|j: int| 0 <= j < blocks.drop_first().len() implies #[trigger] blocks.drop_first()[j].0
            != k by {
            assert(blocks.drop_first()[j] == blocks[j + 1]);
        }
        lemma_fill_all_other(fill_provider(ps, b.0, b.1), blocks.drop_first(), k);
    }
}

/// After completion, block `i` is its defaults with the existing members of
/// that provider set over them.
proof fn lemma_fill_all_block(
    ps: Seq<(Seq<char>, JsonV)>,
    blocks: Seq<(Seq<char>, Seq<(Seq<char>, JsonV)>)>,
    i: int,
)
    requires
        0 <= i < blocks.len(),
        forall|a: int, b: int| 0 <= a < b < blocks.len() ==> #[trigger] blocks[a].0 != #[trigger] blocks[b].0,
    ensures
        lookup(fill_all(ps, blocks), blocks[i].0) == Some(
            match lookup(ps, blocks[i].0) {
                None => JsonV::Object(blocks[i].1),
                Some(e) => merged_block(blocks[i].1, e),
            },
        ),
    decreases blocks.len(),
{
    let b = blocks[0];
    let rest = blocks.drop_first();
    let filled = fill_provider(ps, b.0, b.1);
    if i == 0 {
        match lookup(ps, b.0) {
            None => law_put_then_lookup(ps, b.0, JsonV::Object(b.1), b.0),
            Some(e) => law_put_then_lookup(ps, b.0, merged_block(b.1, e), b.0),
        }
        assert forall|j: int| 0 <= j < rest.len() implies #[trigger] rest[j].0 != b.0 by {
            assert(rest[j] == blocks[j + 1]);
        }
        lemma_fill_all_other(filled, rest, b.0);
    } else {
        assert(rest[i - 1] == blocks[i]);
        assert(blocks[i].0 != b.0);
        match lookup(ps, b.0) {
            None => law_put_then_lookup(ps, b.0, JsonV::Object(b.1), blocks[i].0),
            Some(e) => law_put_then_lookup(ps, b.0, merged_block(b.1, e), blocks[i].0),
        }
        assert forall|x: int, y: int| 0 <= x < y < rest.len() implies #[trigger] rest[x].0
            != #[trigger] rest[y].0 by {
            assert(rest[x] == blocks[x + 1]);
            assert(rest[y] == blocks[y + 1]);
        }
        lemma_fill_all_block(filled, rest, i - 1);
    }
}

/// The default providers have distinct keys.
proof fn lemma_default_keys_distinct()
    ensures
        forall|a: int, b: int|
            0 <= a < b < default_blocks().len() ==> #[trigger] default_blocks()[a].0
                != #[trigger] default_blocks()[b].0,
{
    reveal_strlit("custom");
    reveal_strlit("deepseek");
    reveal_strlit("ollama");
    reveal_strlit("openai");
    assert("custom"@[0] != "deepseek"@[0]);
    assert("custom"@[0] != "ollama"@[0]);
    assert("custom"@[0] != "openai"@[0]);
    assert("deepseek"@[0] != "ollama"@[0]);
    assert("deepseek"@[0] != "openai"@[0]);
    assert("ollama"@[1] != "openai"@[1]);
}

/// The settings' `providers` object after completion.
pub open spec fn completed_providers(raw: JsonV) -> Option<JsonV> {
    with_provider_defaults(raw).get("providers"@)
}

/// After completion, every default provider has a block holding every
/// default member, whatever blocks the settings held before.
pub proof fn law_defaults_complete(raw: JsonV, i: int, j: int)
    requires
        raw is Object,
        raw.get("providers"@) matches Some(JsonV::Object(_)),
        0 <= i < default_blocks().len(),
        0 <= j < default_blocks()[i].1.len(),
    ensures
        completed_providers(raw) matches Some(ps) && ps.get(default_blocks()[i].0) matches Some(
            block,
        ) && block.get(default_blocks()[i].1[j].0) is Some,
{
    let top = raw->Object_0;
    let ps = raw.get("providers"@)->Some_0->Object_0;
    let blocks = default_blocks();
    let f = fill_all(ps, blocks);
    law_put_then_lookup(top, "providers"@, JsonV::Object(f), "providers"@);
    lemma_default_keys_distinct();
    lemma_fill_all_block(ps, blocks, i);
    let d = blocks[i].1;
    lemma_lookup_present(d, j);
    match lookup(ps, blocks[i].0) {
        None => {},
        Some(e) => match e {
            JsonV::Object(cur) => lemma_overlay_keeps(d, cur, d[j].0),
            _ => {},
        },
    }
}

/// Completion gives every default member that a provider block lacks (or
/// the whole block, when it is missing or not an object) its default value.
pub proof fn law_defaults_fill_missing(raw: JsonV, i: int, j: int)
    requires
        raw is Object,
        raw.get("providers"@) matches Some(JsonV::Object(_)),
        0 <= i < default_blocks().len(),
        0 <= j < default_blocks()[i].1.len(),
        raw.get("providers"@)->Some_0.get(default_blocks()[i].0) matches Some(JsonV::Object(cur))
            ==> lookup(cur, default_blocks()[i].1[j].0) is None,
    ensures
        completed_providers(raw) matches Some(ps) && ps.get(default_blocks()[i].0) matches Some(
            block,
        ) && block.get(default_blocks()[i].1[j].0) == Some(default_blocks()[i].1[j].1),
{
    let top = raw->Object_0;
    let ps = raw.get("providers"@)->Some_0->Object_0;
    let blocks = default_blocks();
    let f = fill_all(ps, blocks);
    law_put_then_lookup(top, "providers"@, JsonV::Object(f), "providers"@);
    lemma_default_keys_distinct();
    lemma_fill_all_block(ps, blocks, i);
    let d = blocks[i].1;
    let k = d[j].0;
    lemma_default_blocks_unique(i);
    lemma_lookup_member(d, j);
    match lookup(ps, blocks[i].0) {
        Some(JsonV::Object(cur)) => {
            assert(!keys_of(cur).contains(k)) by {
                if keys_of(cur).contains(k) {
                    let m = choose|m: int| 0 <= m < keys_of(cur).len() && keys_of(cur)[m] == k;
                    lemma_lookup_present(cur, m);
                }
            }
            lemma_overlay_other(d, cur, k);
        },
        _ => {},
    }
}

/// Completion keeps every member already set in a provider block (an object
/// without repeated keys), for default and other providers alike.
pub proof fn law_defaults_keep_values(raw: JsonV, provider: Seq<char>, j: int)
    requires
        raw is Object,
        raw.get("providers"@) matches Some(JsonV::Object(ps)) && lookup(ps, provider) matches Some(
            JsonV::Object(cur),
        ) && unique_keys(cur) && 0 <= j < cur.len(),
    ensures
        completed_providers(raw) matches Some(ps2) && ps2.get(provider) matches Some(block)
            && block.get(
            (raw.get("providers"@)->Some_0.get(provider)->Some_0->Object_0)[j].0,
        ) == Some((raw.get("providers"@)->Some_0.get(provider)->Some_0->Object_0)[j].1),
{
    let top = raw->Object_0;
    let ps = raw.get("providers"@)->Some_0->Object_0;
    let cur = lookup(ps, provider)->Some_0->Object_0;
    let blocks = default_blocks();
    let f = fill_all(ps, blocks);
    law_put_then_lookup(top, "providers"@, JsonV::Object(f), "providers"@);
    lemma_default_keys_distinct();
    if exists|i: int| 0 <= i < blocks.len() && #[trigger] blocks[i].0 == provider {
        let i = choose|i: int| 0 <= i < blocks.len() && #[trigger] blocks[i].0 == provider;
        lemma_fill_all_block(ps, blocks, i);
        lemma_overlay_takes_top(blocks[i].1, cur, j);
    } else {
        lemma_fill_all_other(ps, blocks, provider);
        lemma_lookup_member(cur, j);
    }
}

/// Completion changes no member of the settings but `providers`.
pub proof fn law_defaults_touch_only_providers(raw: JsonV, key: Seq<char>)
    requires
        key != "providers"@,
    ensures
        with_provider_defaults(raw).get(key) == raw.get(key),
{
    match raw {
        JsonV::Object(top) => match lookup(top, "providers"@) {
            Some(JsonV::Object(ps)) => {
                law_put_then_lookup(top, "providers"@, JsonV::Object(fill_all(ps, default_blocks())), key);
            },
            _ => {},
        },
        _ => {},
    }
}


/// Member `key` of provider `provider`'s block, when that block is an object.
pub open spec fn block_member(blocks: Seq<(Seq<char>, JsonV)>, provider: Seq<char>, key: Seq<char>) -> Option<
    JsonV,
> {
    match lookup(blocks, provider) {
        Some(JsonV::Object(f)) => lookup(f, key),
        _ => None,
    }
}

/// Setting one member of one block leaves every other member of every block alone.
proof fn lemma_set_in_block_other(
    blocks: Seq<(Seq<char>, JsonV)>,
    q: Seq<char>,
    key: Seq<char>,
    v: Seq<char>,
    p: Seq<char>,
    k: Seq<char>,
)
    requires
        p != q || k != key,
    ensures
        block_member(set_in_block(blocks, q, key, v), p, k) == block_member(blocks, p, k),
        lookup(blocks, p) matches Some(JsonV::Object(_)) ==> lookup(set_in_block(blocks, q, key, v), p) matches Some(JsonV::Object(_)),
{
    match lookup(blocks, q) {
        Some(JsonV::Object(f)) => {
            let nb = JsonV::Object(put(f, key, JsonV::Str(v)));
            law_put_then_lookup(blocks, q, nb, p);
            if p == q {
                law_put_then_lookup(f, key, JsonV::Str(v), k);
            }
        },
        _ => {},
    }
}

/// Setting a member of a block that is an object sets it.
proof fn lemma_set_in_block_same(blocks: Seq<(Seq<char>, JsonV)>, p: Seq<char>, key: Seq<char>, v: Seq<char>)
    requires
        lookup(blocks, p) matches Some(JsonV::Object(_)),
    ensures
        block_member(set_in_block(blocks, p, key, v), p, key) == Some(JsonV::Str(v)),
        lookup(set_in_block(blocks, p, key, v), p) matches Some(JsonV::Object(_)),
{
    let f = lookup(blocks, p)->Some_0->Object_0;
    law_put_then_lookup(blocks, p, JsonV::Object(put(f, key, JsonV::Str(v))), p);
    law_put_then_lookup(f, key, JsonV::Str(v), key);
}

/// The providers object that migration yields.
pub open spec fn migrated_blocks(raw: JsonV) -> Seq<(Seq<char>, JsonV)> {
    migrate_spec(raw)->Object_0[1].1->Object_0
}

/// Migration keeps the chosen provider and yields a `providers` object, so
/// stored settings are migrated once: loading migrated settings migrates nothing.
pub proof fn law_migration_happens_once(raw: JsonV)
    ensures
        migrate_spec(raw).get("provider"@) == Some(JsonV::Str(provider_name(raw))),
        migrate_spec(raw).get("providers"@) is Some,
        !loaded_settings(Some(migrate_spec(raw))).1,
{
    reveal_strlit("provider");
    reveal_strlit("providers");
    let m = migrate_spec(raw)->Object_0;
    assert(m[0].0 == "provider"@);
    assert(m[1].0 == "providers"@);
    assert("provider"@.len() != "providers"@.len());
    assert(m.drop_first()[0] == m[1]);
    assert(m.drop_first().len() == 1);
    assert(lookup(m.drop_first(), "providers"@) is Some);
    assert(lookup(m, "providers"@) == lookup(m.drop_first(), "providers"@));
}

/// Migration moves the legacy API key into the chosen provider's block.
pub proof fn law_migration_moves_api_key(raw: JsonV)
    requires
        migratable(raw),
        flat_str(raw, "apiKey"@) is Some,
    ensures
        block_member(migrated_blocks(raw), provider_name(raw), "apiKey"@) == Some(
            JsonV::Str(flat_str(raw, "apiKey"@)->Some_0),
        ),
{
    reveal_strlit("apiKey");
    reveal_strlit("model");
    reveal_strlit("ollamaUrl");
    reveal_strlit("baseUrl");
    reveal_strlit("provider");
    reveal_strlit("providers");
    let p = provider_name(raw);
    let b0 = default_provider_members();
    let keys = b0.map_values(|m: (Seq<char>, JsonV)| m.0);
    let i = choose|i: int| 0 <= i < keys.len() && keys[i] == p;
    lemma_default_keys_distinct();
    assert(unique_keys(b0)) by {
        assert forall|a: int, b: int| 0 <= a < b < b0.len() implies #[trigger] b0[a].0 != #[trigger] b0[b].0 by {
            assert(b0[a].0 == default_blocks()[a].0);
            assert(b0[b].0 == default_blocks()[b].0);
        }
    }
    assert(keys[i] == b0[i].0);
    lemma_lookup_member(b0, i);
    let k = flat_str(raw, "apiKey"@)->Some_0;
    let b1 = move_legacy(b0, raw, "apiKey"@, p, "apiKey"@);
    lemma_set_in_block_same(b0, p, "apiKey"@, k);
    let b2 = move_legacy(b1, raw, "model"@, p, "model"@);
    assert("model"@ != "apiKey"@) by {
        assert("model"@[0] != "apiKey"@[0]);
    }
    assert("ollamaUrl"@ != "apiKey"@) by {
        assert("ollamaUrl"@[0] != "apiKey"@[0]);
    }
    assert("baseUrl"@ != "apiKey"@) by {
        assert("baseUrl"@[0] != "apiKey"@[0]);
    }
    if let Some(v) = flat_str(raw, "model"@) {
        lemma_set_in_block_other(b1, p, "model"@, v, p, "apiKey"@);
    }
    let b3 = move_legacy(b2, raw, "ollamaUrl"@, "ollama"@, "ollamaUrl"@);
    if let Some(v) = flat_str(raw, "ollamaUrl"@) {
        lemma_set_in_block_other(b2, "ollama"@, "ollamaUrl"@, v, p, "apiKey"@);
    }
    let b4 = move_legacy(b3, raw, "customEndpoint"@, "custom"@, "baseUrl"@);
    if let Some(v) = flat_str(raw, "customEndpoint"@) {
        lemma_set_in_block_other(b3, "custom"@, "baseUrl"@, v, p, "apiKey"@);
    }
    if let Some(v) = flat_str(raw, "customModel"@) {
        lemma_set_in_block_other(b4, "custom"@, "model"@, v, p, "apiKey"@);
    }
}


/// Moving a legacy member keeps each block that is an object an object.
proof fn lemma_move_legacy_keeps_object(
    blocks: Seq<(Seq<char>, JsonV)>,
    raw: JsonV,
    legacy: Seq<char>,
    q: Seq<char>,
    key: Seq<char>,
    p: Seq<char>,
)
    requires
        lookup(blocks, p) matches Some(JsonV::Object(_)),
    ensures
        lookup(move_legacy(blocks, raw, legacy, q, key), p) matches Some(JsonV::Object(_)),
{
    if let Some(v) = flat_str(raw, legacy) {
        if p == q {
            lemma_set_in_block_same(blocks, p, key, v);
        } else {
            lemma_set_in_block_other(blocks, q, key, v, p, key);
        }
    }
}

/// Moving a legacy member into member `key` of block `q` leaves every other
/// member of every block alone.
proof fn lemma_move_legacy_other(
    blocks: Seq<(Seq<char>, JsonV)>,
    raw: JsonV,
    legacy: Seq<char>,
    q: Seq<char>,
    key: Seq<char>,
    p: Seq<char>,
    k: Seq<char>,
)
    requires
        p != q || k != key,
    ensures
        block_member(move_legacy(blocks, raw, legacy, q, key), p, k) == block_member(blocks, p, k),
{
    if let Some(v) = flat_str(raw, legacy) {
        lemma_set_in_block_other(blocks, q, key, v, p, k);
    }
}

/// Moving a legacy string member into a block that is an object sets it there.
proof fn lemma_move_legacy_sets(
    blocks: Seq<(Seq<char>, JsonV)>,
    raw: JsonV,
    legacy: Seq<char>,
    q: Seq<char>,
    key: Seq<char>,
)
    requires
        lookup(blocks, q) matches Some(JsonV::Object(_)),
        flat_str(raw, legacy) is Some,
    ensures
        block_member(move_legacy(blocks, raw, legacy, q, key), q, key) == Some(
            JsonV::Str(flat_str(raw, legacy)->Some_0),
        ),
{
    lemma_set_in_block_same(blocks, q, key, flat_str(raw, legacy)->Some_0);
}

/// The default provider `i` has an object block among the default members.
proof fn lemma_default_block_object(i: int)
    requires
        0 <= i < default_blocks().len(),
    ensures
        lookup(default_provider_members(), default_blocks()[i].0) == Some(
            JsonV::Object(default_blocks()[i].1),
        ),
{
    let b0 = default_provider_members();
    lemma_default_keys_distinct();
    assert(unique_keys(b0)) by {
        assert forall|a: int, b: int| 0 <= a < b < b0.len() implies #[trigger] b0[a].0 != #[trigger] b0[b].0 by {
            assert(b0[a].0 == default_blocks()[a].0);
            assert(b0[b].0 == default_blocks()[b].0);
        }
    }
    lemma_lookup_member(b0, i);
}

/// Migration moves each legacy member into its block: `customModel` becomes
/// the custom provider's `model`, `customEndpoint` its `baseUrl`, and
/// `ollamaUrl` the Ollama provider's `ollamaUrl`; the legacy `model` becomes
/// the chosen provider's `model`, unless the chosen provider is `custom` and
/// a legacy `customModel` takes that place.
pub proof fn law_migration_moves_legacy_members(raw: JsonV)
    ensures
        flat_str(raw, "customModel"@) matches Some(m) ==> block_member(
            migrated_blocks(raw),
            "custom"@,
            "model"@,
        ) == Some(JsonV::Str(m)),
        flat_str(raw, "customEndpoint"@) matches Some(e) ==> block_member(
            migrated_blocks(raw),
            "custom"@,
            "baseUrl"@,
        ) == Some(JsonV::Str(e)),
        flat_str(raw, "ollamaUrl"@) matches Some(u) ==> block_member(
            migrated_blocks(raw),
            "ollama"@,
            "ollamaUrl"@,
        ) == Some(JsonV::Str(u)),
        migratable(raw) && !(provider_name(raw) == "custom"@ && flat_str(raw, "customModel"@) is Some)
            ==> (flat_str(raw, "model"@) matches Some(m) ==> block_member(
            migrated_blocks(raw),
            provider_name(raw),
            "model"@,
        ) == Some(JsonV::Str(m))),
{
    reveal_strlit("model");
    reveal_strlit("baseUrl");
    reveal_strlit("ollamaUrl");
    reveal_strlit("custom");
    reveal_strlit("ollama");
    assert("ollama"@[0] != "custom"@[0]);
    assert("baseUrl"@.len() != "model"@.len());
    assert("ollamaUrl"@.len() != "model"@.len());
    let p = provider_name(raw);
    let b0 = default_provider_members();
    let b1 = move_legacy(b0, raw, "apiKey"@, p, "apiKey"@);
    let b2 = move_legacy(b1, raw, "model"@, p, "model"@);
    let b3 = move_legacy(b2, raw, "ollamaUrl"@, "ollama"@, "ollamaUrl"@);
    let b4 = move_legacy(b3, raw, "customEndpoint"@, "custom"@, "baseUrl"@);
    let b5 = move_legacy(b4, raw, "customModel"@, "custom"@, "model"@);
    assert(migrated_blocks(raw) == b5);
    lemma_default_block_object(0);
    lemma_default_block_object(2);
    assert(default_blocks()[0].0 == "custom"@);
    assert(default_blocks()[2].0 == "ollama"@);
    // The custom and Ollama blocks stay objects through every step.
    lemma_move_legacy_keeps_object(b0, raw, "apiKey"@, p, "apiKey"@, "custom"@);
    lemma_move_legacy_keeps_object(b1, raw, "model"@, p, "model"@, "custom"@);
    lemma_move_legacy_keeps_object(b2, raw, "ollamaUrl"@, "ollama"@, "ollamaUrl"@, "custom"@);
    lemma_move_legacy_keeps_object(b3, raw, "customEndpoint"@, "custom"@, "baseUrl"@, "custom"@);
    lemma_move_legacy_keeps_object(b0, raw, "apiKey"@, p, "apiKey"@, "ollama"@);
    lemma_move_legacy_keeps_object(b1, raw, "model"@, p, "model"@, "ollama"@);
    if flat_str(raw, "customModel"@) is Some {
        lemma_move_legacy_sets(b4, raw, "customModel"@, "custom"@, "model"@);
    }
    if flat_str(raw, "customEndpoint"@) is Some {
        lemma_move_legacy_sets(b3, raw, "customEndpoint"@, "custom"@, "baseUrl"@);
        lemma_move_legacy_other(b4, raw, "customModel"@, "custom"@, "model"@, "custom"@, "baseUrl"@);
    }
    if flat_str(raw, "ollamaUrl"@) is Some {
        lemma_move_legacy_sets(b2, raw, "ollamaUrl"@, "ollama"@, "ollamaUrl"@);
        lemma_move_legacy_other(b3, raw, "customEndpoint"@, "custom"@, "baseUrl"@, "ollama"@, "ollamaUrl"@);
        lemma_move_legacy_other(b4, raw, "customModel"@, "custom"@, "model"@, "ollama"@, "ollamaUrl"@);
    }
    if migratable(raw) && !(p == "custom"@ && flat_str(raw, "customModel"@) is Some) && flat_str(
        raw,
        "model"@,
    ) is Some {
        let keys = b0.map_values(|m: (Seq<char>, JsonV)| m.0);
        let i = choose|i: int| 0 <= i < keys.len() && keys[i] == p;
        assert(keys[i] == default_blocks()[i].0);
        lemma_default_block_object(i);
        lemma_move_legacy_keeps_object(b0, raw, "apiKey"@, p, "apiKey"@, p);
        lemma_move_legacy_sets(b1, raw, "model"@, p, "model"@);
        lemma_move_legacy_other(b2, raw, "ollamaUrl"@, "ollama"@, "ollamaUrl"@, p, "model"@);
        lemma_move_legacy_other(b3, raw, "customEndpoint"@, "custom"@, "baseUrl"@, p, "model"@);
        if p != "custom"@ {
            lemma_move_legacy_other(b4, raw, "customModel"@, "custom"@, "model"@, p, "model"@);
        }
    }
}


/// The default settings select `deepseek` and resolve to its endpoint, an
/// empty key and the `deepseek-chat` model.
pub proof fn law_default_settings_resolve()
    ensures
        resolve_spec(default_settings_v()) == Ok::<_, Seq<char>>(
            ("https://api.deepseek.com/v1/chat/completions"@, Seq::<char>::empty(), "deepseek-chat"@),
        ),
{
    reveal_strlit("provider");
    reveal_strlit("providers");
    reveal_strlit("deepseek");
    reveal_strlit("deepseek-chat");
    reveal_strlit("apiKey");
    reveal_strlit("model");
    reveal_strlit("");
    let top = default_settings_v()->Object_0;
    assert(top[0].0 == "provider"@);
    assert(top[1].0 == "providers"@);
    assert("provider"@.len() != "providers"@.len());
    assert(top.drop_first()[0] == top[1]);
    assert(top.drop_first().len() == 1);
    assert(lookup(top.drop_first(), "providers"@) == Some(top[1].1));
    assert(lookup(top, "providers"@) == lookup(top.drop_first(), "providers"@));
    assert(lookup(top, "providers"@) == Some(JsonV::Object(default_provider_members())));
    assert(lookup(top, "provider"@) == Some(JsonV::Str("deepseek"@)));
    lemma_default_block_object(1);
    assert(default_blocks()[1].0 == "deepseek"@);
    let d = default_blocks()[1].1;
    assert(d[0] == str_field("apiKey"@, ""@));
    assert(d[1] == str_field("model"@, "deepseek-chat"@));
    assert(""@ =~= Seq::<char>::empty());
    lemma_default_blocks_unique(1);
    lemma_lookup_member(d, 0);
    lemma_lookup_member(d, 1);
    crate::llm::law_resolve_takes_configured_model(
        default_settings_v(),
        JsonV::Object(default_provider_members()),
        "deepseek"@,
        JsonV::Object(d),
        "deepseek-chat"@,
    );
    crate::llm::law_resolve_takes_configured_key(
        default_settings_v(),
        JsonV::Object(default_provider_members()),
        "deepseek"@,
        JsonV::Object(d),
        Seq::<char>::empty(),
    );
    reveal_strlit("ollama");
    reveal_strlit("openai");
    assert("deepseek"@[0] != "ollama"@[0]);
    assert("deepseek"@[0] != "openai"@[0]);
    assert(crate::llm::provider_name(default_settings_v()) == "deepseek"@);
    assert(resolve_spec(default_settings_v())->Ok_0.0 == "https://api.deepseek.com/v1/chat/completions"@);
}

/// Loading gives the default settings when nothing is stored; otherwise the
/// result is written back exactly when the stored settings have no
/// `providers` member (the legacy layout, which is migrated, keeping the chosen
/// provider), and settings in the current layout keep every member but
/// `providers`.
pub proof fn law_loading_cases(stored: Option<JsonV>, key: Seq<char>)
    requires
        key != "providers"@,
    ensures
        stored is None ==> loaded_settings(stored) == (default_settings_v(), false),
        stored is Some ==> (loaded_settings(stored).1 <==> stored->Some_0.get("providers"@) is None),
        stored is Some && stored->Some_0.get("providers"@) is None ==> loaded_settings(stored).0.get(
            "provider"@,
        ) == Some(JsonV::Str(provider_name(stored->Some_0))),
        stored is Some && stored->Some_0.get("providers"@) is Some ==> loaded_settings(stored).0.get(
            key,
        ) == stored->Some_0.get(key),
{
    if let Some(raw) = stored {
        law_migration_happens_once(raw);
        law_defaults_touch_only_providers(raw, key);
    }
}

/// Whether provider `key`'s block is an object that starts with the keys of
/// its defaults `d`, in order, and repeats no key.
pub open spec fn block_ok(fields: Seq<(Seq<char>, JsonV)>, key: Seq<char>, d: Seq<(Seq<char>, JsonV)>) -> bool {
    match lookup(fields, key) {
        Some(JsonV::Object(m)) => keeps_key_prefix(d, m),
        _ => false,
    }
}

/// Whether every default provider's block is in the shape that completion produces.
pub open spec fn blocks_ok(fields: Seq<(Seq<char>, JsonV)>) -> bool {
    forall|i: int|
        0 <= i < default_blocks().len() ==> #[trigger] block_ok(
            fields,
            default_blocks()[i].0,
            default_blocks()[i].1,
        )
}

/// No default block repeats a key.
proof fn lemma_default_blocks_unique(i: int)
    requires
        0 <= i < default_blocks().len(),
    ensures
        unique_keys(default_blocks()[i].1),
{
    reveal_strlit("apiKey");
    reveal_strlit("baseUrl");
    reveal_strlit("model");
    reveal_strlit("ollamaUrl");
    let d = default_blocks()[i].1;
    assert("apiKey"@[0] != "baseUrl"@[0]);
    assert("apiKey"@[0] != "model"@[0]);
    assert("baseUrl"@[0] != "model"@[0]);
    assert("model"@[0] != "ollamaUrl"@[0]);
    assert forall|a: int, b: int| 0 <= a < b < d.len() implies #[trigger] d[a].0 != #[trigger] d[b].0 by {
        assert(d[a].0[0] != d[b].0[0]);
    }
}

/// Completing a block that is already in completed shape changes nothing.
proof fn lemma_fill_provider_fixed(f: Seq<(Seq<char>, JsonV)>, key: Seq<char>, d: Seq<(Seq<char>, JsonV)>)
    requires
        block_ok(f, key, d),
    ensures
        fill_provider(f, key, d) == f,
{
    let m = lookup(f, key)->Some_0->Object_0;
    lemma_overlay_fixed(d, m);
    lemma_put_same(f, key, JsonV::Object(m));
}

/// Completing providers whose blocks are all in completed shape changes nothing.
proof fn lemma_fill_all_fixed(f: Seq<(Seq<char>, JsonV)>, blocks: Seq<(Seq<char>, Seq<(Seq<char>, JsonV)>)>)
    requires
        forall|i: int| 0 <= i < blocks.len() ==> #[trigger] block_ok(f, blocks[i].0, blocks[i].1),
    ensures
        fill_all(f, blocks) == f,
    decreases blocks.len(),
{
    if blocks.len() > 0 {
        assert(block_ok(f, blocks[0].0, blocks[0].1));
        lemma_fill_provider_fixed(f, blocks[0].0, blocks[0].1);
        assert forall|i: int| 0 <= i < blocks.drop_first().len() implies #[trigger] block_ok(
            f,
            blocks.drop_first()[i].0,
            blocks.drop_first()[i].1,
        ) by {
            assert(blocks.drop_first()[i] == blocks[i + 1]);
        }
        lemma_fill_all_fixed(f, blocks.drop_first());
    }
}

/// After completion every default provider's block is in completed shape.
proof fn lemma_completed_blocks_ok(ps: Seq<(Seq<char>, JsonV)>)
    ensures
        blocks_ok(fill_all(ps, default_blocks())),
{
    let blocks = default_blocks();
    lemma_default_keys_distinct();
    assert forall|i: int| 0 <= i < blocks.len() implies #[trigger] block_ok(
        fill_all(ps, blocks),
        blocks[i].0,
        blocks[i].1,
    ) by {
        lemma_fill_all_block(ps, blocks, i);
        lemma_default_blocks_unique(i);
        let d = blocks[i].1;
        match lookup(ps, blocks[i].0) {
            Some(JsonV::Object(cur)) => lemma_overlay_shape(d, cur),
            _ => {},
        }
    }
}

/// Completing settings whose providers are in completed shape changes nothing.
proof fn lemma_with_defaults_fixed(top: Seq<(Seq<char>, JsonV)>, f: Seq<(Seq<char>, JsonV)>)
    requires
        lookup(top, "providers"@) == Some(JsonV::Object(f)),
        blocks_ok(f),
    ensures
        with_provider_defaults(JsonV::Object(top)) == JsonV::Object(top),
{
    assert forall|i: int| 0 <= i < default_blocks().len() implies #[trigger] block_ok(
        f,
        default_blocks()[i].0,
        default_blocks()[i].1,
    ) by {
        assert(block_ok(f, default_blocks()[i].0, default_blocks()[i].1));
    }
    lemma_fill_all_fixed(f, default_blocks());
    lemma_put_same(top, "providers"@, JsonV::Object(f));
}

/// Completing the provider defaults twice gives the same settings as once.
pub proof fn law_defaults_idempotent(raw: JsonV)
    ensures
        with_provider_defaults(with_provider_defaults(raw)) == with_provider_defaults(raw),
{
    match raw {
        JsonV::Object(top) => match lookup(top, "providers"@) {
            Some(JsonV::Object(ps)) => {
                let f = fill_all(ps, default_blocks());
                let top1 = put(top, "providers"@, JsonV::Object(f));
                law_put_then_lookup(top, "providers"@, JsonV::Object(f), "providers"@);
                lemma_completed_blocks_ok(ps);
                lemma_with_defaults_fixed(top1, f);
            },
            _ => {},
        },
        _ => {},
    }
}

/// Moving a legacy member into a block keeps every default block in completed shape.
proof fn lemma_move_legacy_ok(
    b: Seq<(Seq<char>, JsonV)>,
    raw: JsonV,
    legacy: Seq<char>,
    q: Seq<char>,
    key: Seq<char>,
)
    requires
        blocks_ok(b),
    ensures
        blocks_ok(move_legacy(b, raw, legacy, q, key)),
{
    match flat_str(raw, legacy) {
        Some(v) => match lookup(b, q) {
            Some(JsonV::Object(f)) => {
                let nf = put(f, key, JsonV::Str(v));
                let b2 = put(b, q, JsonV::Object(nf));
                assert forall|i: int| 0 <= i < default_blocks().len() implies #[trigger] block_ok(
                    b2,
                    default_blocks()[i].0,
                    default_blocks()[i].1,
                ) by {
                    let k = default_blocks()[i].0;
                    let d = default_blocks()[i].1;
                    assert(block_ok(b, k, d));
                    law_put_then_lookup(b, q, JsonV::Object(nf), k);
                    if k == q {
                        lemma_put_shape(f, key, JsonV::Str(v));
                        lemma_keeps_key_prefix_trans(d, f, nf);
                    }
                }
            },
            _ => {},
        },
        None => {},
    }
}

/// The default providers are in completed shape.
proof fn lemma_default_members_ok()
    ensures
        blocks_ok(default_provider_members()),
{
    let b0 = default_provider_members();
    lemma_default_keys_distinct();
    assert(unique_keys(b0)) by {
        assert forall|a: int, b: int| 0 <= a < b < b0.len() implies #[trigger] b0[a].0 != #[trigger] b0[b].0 by {
            assert(b0[a].0 == default_blocks()[a].0);
            assert(b0[b].0 == default_blocks()[b].0);
        }
    }
    assert forall|i: int| 0 <= i < default_blocks().len() implies #[trigger] block_ok(
        b0,
        default_blocks()[i].0,
        default_blocks()[i].1,
    ) by {
        lemma_lookup_member(b0, i);
        assert(b0[i] == (default_blocks()[i].0, JsonV::Object(default_blocks()[i].1)));
        lemma_default_blocks_unique(i);
    }
}

/// Settings that loading yields load again to themselves, with nothing to
/// write back: what is saved after a load (or a migration) is stable.
pub proof fn law_loading_is_stable(stored: Option<JsonV>)
    requires
        loadable(stored),
    ensures
        loaded_settings(Some(loaded_settings(stored).0)) == (loaded_settings(stored).0, false),
{
    reveal_strlit("provider");
    reveal_strlit("providers");
    assert("provider"@.len() != "providers"@.len());
    match stored {
        None => {
            let top = default_settings_v()->Object_0;
            assert(top.drop_first()[0] == top[1]);
            assert(lookup(top.drop_first(), "providers"@) == Some(top[1].1));
            lemma_default_members_ok();
            lemma_with_defaults_fixed(top, default_provider_members());
        },
        Some(raw) => {
            if raw.get("providers"@) is None {
                let p = provider_name(raw);
                let b0 = default_provider_members();
                let b1 = move_legacy(b0, raw, "apiKey"@, p, "apiKey"@);
                let b2 = move_legacy(b1, raw, "model"@, p, "model"@);
                let b3 = move_legacy(b2, raw, "ollamaUrl"@, "ollama"@, "ollamaUrl"@);
                let b4 = move_legacy(b3, raw, "customEndpoint"@, "custom"@, "baseUrl"@);
                let b5 = move_legacy(b4, raw, "customModel"@, "custom"@, "model"@);
                lemma_default_members_ok();
                lemma_move_legacy_ok(b0, raw, "apiKey"@, p, "apiKey"@);
                lemma_move_legacy_ok(b1, raw, "model"@, p, "model"@);
                lemma_move_legacy_ok(b2, raw, "ollamaUrl"@, "ollama"@, "ollamaUrl"@);
                lemma_move_legacy_ok(b3, raw, "customEndpoint"@, "custom"@, "baseUrl"@);
                lemma_move_legacy_ok(b4, raw, "customModel"@, "custom"@, "model"@);
                let top = migrate_spec(raw)->Object_0;
                assert(top.drop_first()[0] == top[1]);
                assert(lookup(top.drop_first(), "providers"@) == Some(top[1].1));
                lemma_with_defaults_fixed(top, b5);
            } else {
                law_defaults_idempotent(raw);
                match raw {
                    JsonV::Object(top) => match lookup(top, "providers"@) {
                        Some(JsonV::Object(ps)) => {
                            law_put_then_lookup(
                                top,
                                "providers"@,
                                JsonV::Object(fill_all(ps, default_blocks())),
                                "providers"@,
                            );
                        },
                        _ => {},
                    },
                    _ => {},
                }
            }
        },
    }
}

} // verus!
