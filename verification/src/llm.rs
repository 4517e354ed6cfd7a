//! Model access: profiles of the `[llm]` section, the runtime configuration
//! derived from the default profile, token usage, and the small rules of the
//! model client (endpoints, retry classification, tolerant JSON extraction).

use vstd::prelude::*;
use crate::text::{
    chars_eq, chars_of, decimal, ends_with, extend_range, first_index_of, is_blank, last_index_in,
    find_last_in, matches_at, occurs_at, push_str_chars, run_len, lemma_run_len_bound, slice_to_vec,
    str_eq, string_of, strip_trailing, strip_trailing_span, trim, trim_end, trim_end_span,
    trim_span, lemma_first_index_of,
};

verus! {

/// A provider profile: endpoint, key, default model and protocol.
#[derive(Debug, Clone, PartialEq)]
pub struct Profile {
    pub key: String,
    pub base_url: String,
    pub api_key: String,
    pub model: String,
    /// `openai` (default) or `anthropic`.
    pub protocol: String,
    /// Thinking level: `low`, `medium`, `high`, or none.
    pub thinking: Option<String>,
}

/// The runtime configuration used by the engine, derived from the default profile.
#[derive(Debug, Clone, PartialEq)]
pub struct LlmConfig {
    pub base_url: String,
    pub api_key: String,
    pub model: String,
    pub protocol: String,
    pub thinking: Option<String>,
    /// Timeout of one call, in seconds.
    pub timeout_secs: u64,
    /// Attempts for a retryable error.
    pub max_attempts: u32,
}

/// A failed model call.
#[derive(Debug, Clone, PartialEq)]
pub struct LlmError {
    /// Network or rate-limit failure (the upstream is unavailable for now).
    pub retryable: bool,
    pub message: String,
}

/// Token usage, normalised over the provider namings.
#[derive(Debug, Clone, Copy, PartialEq, Eq, Default)]
pub struct Usage {
    pub input: u64,
    pub output: u64,
    pub cache_read: u64,
    pub cache_write: u64,
}

/// The complete result of one streamed call.
#[derive(Debug, Clone, PartialEq)]
pub struct ChatOutput {
    pub text: String,
    pub thinking: String,
    pub usage: Option<Usage>,
    /// Produced by the non-streaming fallback.
    pub fallback: bool,
}

/// One message sent to the model.
#[derive(Debug, Clone, PartialEq)]
pub struct ChatMessage {
    /// `system`, `user` or `assistant`.
    pub role: String,
    pub content: String,
}

/// The `[llm]` section of `config.toml`, as read: the profile list and the
/// default key, or the fields of the older single-profile layout.
#[derive(Debug, Clone, PartialEq)]
pub struct LlmSection {
    pub default: Option<String>,
    pub max_concurrency: Option<u32>,
    pub profiles: Vec<Profile>,
    pub base_url: Option<String>,
    pub api_key: Option<String>,
    pub model: Option<String>,
    pub protocol: Option<String>,
}

pub const DEFAULT_TIMEOUT_SECS: u64 = 180;
pub const DEFAULT_MAX_ATTEMPTS: u32 = 3;

/// Timeout of one call when none is configured.
pub fn default_timeout() -> (r: u64)
    ensures
        r == DEFAULT_TIMEOUT_SECS,
{
    DEFAULT_TIMEOUT_SECS
}

/// Attempts for a retryable error when none is configured.
pub fn default_max_attempts() -> (r: u32)
    ensures
        r == DEFAULT_MAX_ATTEMPTS,
{
    DEFAULT_MAX_ATTEMPTS
}

/// Protocol of a profile that names none.
pub fn default_protocol() -> (r: String)
    ensures
        r@ == "openai"@,
{
    "openai".to_owned()
}

pub fn clone_opt_string(o: &Option<String>) -> (r: Option<String>)
    ensures
        r == *o,
{
    match o {
        Some(s) => Some(s.clone()),
        None => None,
    }
}

impl LlmConfig {
    /// The protocol, trimmed, is `anthropic`.
    pub fn is_anthropic(&self) -> (r: bool)
        ensures
            r == (trim(self.protocol@) == "anthropic"@),
    {
        let v = chars_of(&self.protocol);
        let (a, b) = trim_span(&v, 0, v.len());
        assert(v@.subrange(0, v@.len() as int) =~= v@);
        crate::text::span_eq(&v, a, b, "anthropic")
    }
}

impl Usage {
    /// Share of the input served from the cache, in percent; none when either count is zero.
    pub fn cache_hit_rate(&self) -> (r: Option<u32>)
        requires
            self.cache_read * 100 <= u64::MAX,
        ensures
            r == (if self.cache_read == 0 || self.input == 0 {
                None
            } else {
                Some(((self.cache_read * 100) as int / self.input as int) as u32)
            }),
    {
        if self.cache_read == 0 || self.input == 0 {
            return None;
        }
        let x: u64 = self.cache_read * 100 / self.input;
        Some(x as u32)
    }
}

/// Position of the first profile with the key `key` (`ps.len()` when none has it).
pub open spec fn key_pos(ps: Seq<Profile>, key: Seq<char>) -> nat
    decreases ps.len(),
{
    if ps.len() == 0 {
        0
    } else if ps[0].key@ == key {
        0
    } else {
        1 + key_pos(ps.drop_first(), key)
    }
}

pub proof fn lemma_key_pos(ps: Seq<Profile>, key: Seq<char>, i: int)
    requires
        0 <= i <= ps.len(),
        forall|k: int| 0 <= k < i ==> (#[trigger] ps[k]).key@ != key,
        i == ps.len() || ps[i].key@ == key,
    ensures
        key_pos(ps, key) == i,
    decreases i,
{
    if i > 0 {
        assert forall|k: int| 0 <= k < i - 1 implies (#[trigger] ps.drop_first()[k]).key@ != key by {
            assert(ps.drop_first()[k] == ps[k + 1]);
        }
        lemma_key_pos(ps.drop_first(), key, i - 1);
    }
}

/// Position of the first profile with key `key` (`ps.len()` when none has it).
pub fn find_profile(ps: &[Profile], key: &String) -> (r: usize)
    ensures
        r == key_pos(ps@, key@),
{
    let mut i: usize = 0;
    while i < ps.len()
        invariant
            i <= ps@.len(),
            forall|k: int| 0 <= k < i ==> (#[trigger] ps@[k]).key@ != key@,
        decreases ps@.len() - i,
    {
        if ps[i].key == *key {
            proof {
                lemma_key_pos(ps@, key@, i as int);
            }
            return i;
        }
        i += 1;
    }
    proof {
        lemma_key_pos(ps@, key@, i as int);
    }
    i
}

pub proof fn lemma_key_pos_bound(ps: Seq<Profile>, key: Seq<char>, i: int)
    ensures
        key_pos(ps, key) <= ps.len(),
        key_pos(ps, key) < ps.len() ==> ps[key_pos(ps, key) as int].key@ == key,
        0 <= i < key_pos(ps, key) ==> ps[i].key@ != key,
    decreases ps.len(),
{
    if ps.len() > 0 && ps[0].key@ != key {
        lemma_key_pos_bound(ps.drop_first(), key, i - 1);
        if key_pos(ps, key) < ps.len() {
            assert(ps[key_pos(ps, key) as int] == ps.drop_first()[key_pos(ps, key) - 1]);
        }
        if 1 <= i < key_pos(ps, key) {
            assert(ps[i] == ps.drop_first()[i - 1]);
        }
    }
}

/// Endpoint, key and model are all filled in.
pub open spec fn usable(p: Profile) -> bool {
    trim(p.base_url@).len() > 0 && trim(p.api_key@).len() > 0 && trim(p.model@).len() > 0
}

/// The runtime configuration of a profile.
pub open spec fn config_of(p: Profile) -> LlmConfig {
    LlmConfig {
        base_url: p.base_url,
        api_key: p.api_key,
        model: p.model,
        protocol: p.protocol,
        thinking: p.thinking,
        timeout_secs: DEFAULT_TIMEOUT_SECS,
        max_attempts: DEFAULT_MAX_ATTEMPTS,
    }
}

/// The configuration of the default profile, when it exists and is usable.
pub open spec fn default_config(ps: Seq<Profile>, default_key: Option<String>) -> Option<LlmConfig> {
    match default_key {
        None => None,
        Some(d) => {
            let i = key_pos(ps, d@);
            if i < ps.len() && usable(ps[i as int]) {
                Some(config_of(ps[i as int]))
            } else {
                None
            }
        },
    }
}

/// The model configuration, on the profiles and default key read
/// from `config.toml`: the configuration of the default profile, or none when
/// there is no default, no profile has its key, or the profile lacks an
/// endpoint, key or model.
pub fn load_llm_config(profiles: &[Profile], default_key: &Option<String>) -> (r: Option<LlmConfig>)
    ensures
        r == default_config(profiles@, *default_key),
{
    match default_key {
        None => None,
        Some(d) => {
            let i = find_profile(profiles, d);
            if i >= profiles.len() {
                return None;
            }
            let p = &profiles[i];
            if is_blank(&p.base_url) || is_blank(&p.api_key) || is_blank(&p.model) {
                return None;
            }
            Some(LlmConfig {
                base_url: p.base_url.clone(),
                api_key: p.api_key.clone(),
                model: p.model.clone(),
                protocol: p.protocol.clone(),
                thinking: clone_opt_string(&p.thinking),
                timeout_secs: default_timeout(),
                max_attempts: default_max_attempts(),
            })
        },
    }
}

/// Endpoints of the known providers, used to name a migrated profile.
pub open spec fn preset_key_spec(b: Seq<char>) -> Option<Seq<char>> {
    if b == strip_trailing("https://api.deepseek.com/v1"@, '/') {
        Some("deepseek"@)
    } else if b == strip_trailing("https://api.moonshot.cn/v1"@, '/') {
        Some("moonshot-cn"@)
    } else if b == strip_trailing("https://api.moonshot.ai/v1"@, '/') {
        Some("moonshot"@)
    } else if b == strip_trailing("https://api.kimi.com/coding"@, '/') {
        Some("kimi-code"@)
    } else if b == strip_trailing("https://open.bigmodel.cn/api/paas/v4"@, '/') {
        Some("zhipu"@)
    } else if b == strip_trailing("https://dashscope.aliyuncs.com/compatible-mode/v1"@, '/') {
        Some("qwen"@)
    } else if b == strip_trailing("https://api.siliconflow.cn/v1"@, '/') {
        Some("siliconflow"@)
    } else if b == strip_trailing("https://api.openai.com/v1"@, '/') {
        Some("openai"@)
    } else if b == strip_trailing("https://openrouter.ai/api/v1"@, '/') {
        Some("openrouter"@)
    } else {
        None
    }
}

fn is_endpoint(b: &Vec<char>, url: &str) -> (r: bool)
    ensures
        r == (b@ == strip_trailing(url@, '/')),
{
    let u = chars_of(url);
    let e = strip_trailing_span(&u, 0, u.len(), '/');
    assert(u@.subrange(0, u@.len() as int) =~= u@);
    let t = slice_to_vec(&u, 0, e);
    chars_eq(b, &t)
}

/// The provider key of an endpoint (the
/// endpoint trimmed and without trailing `/`), if it is a known one.
pub fn preset_key_for(base_url: &str) -> (r: Option<String>)
    ensures
        match r {
            Some(k) => preset_key_spec(strip_trailing(trim(base_url@), '/')) == Some(k@),
            None => preset_key_spec(strip_trailing(trim(base_url@), '/')) is None,
        },
{
    let v = chars_of(base_url);
    let (a, b) = trim_span(&v, 0, v.len());
    assert(v@.subrange(0, v@.len() as int) =~= v@);
    let e = strip_trailing_span(&v, a, b, '/');
    let t = slice_to_vec(&v, a, e);
    if is_endpoint(&t, "https://api.deepseek.com/v1") {
        Some("deepseek".to_owned())
    } else if is_endpoint(&t, "https://api.moonshot.cn/v1") {
        Some("moonshot-cn".to_owned())
    } else if is_endpoint(&t, "https://api.moonshot.ai/v1") {
        Some("moonshot".to_owned())
    } else if is_endpoint(&t, "https://api.kimi.com/coding") {
        Some("kimi-code".to_owned())
    } else if is_endpoint(&t, "https://open.bigmodel.cn/api/paas/v4") {
        Some("zhipu".to_owned())
    } else if is_endpoint(&t, "https://dashscope.aliyuncs.com/compatible-mode/v1") {
        Some("qwen".to_owned())
    } else if is_endpoint(&t, "https://api.siliconflow.cn/v1") {
        Some("siliconflow".to_owned())
    } else if is_endpoint(&t, "https://api.openai.com/v1") {
        Some("openai".to_owned())
    } else if is_endpoint(&t, "https://openrouter.ai/api/v1") {
        Some("openrouter".to_owned())
    } else {
        None
    }
}

/// Some profile has the key `d`.
pub open spec fn has_key(ps: Seq<Profile>, d: Seq<char>) -> bool {
    key_pos(ps, d) < ps.len()
}

/// The default key of a profile list: the configured one if a profile has
/// it, else the key of the first profile.
pub open spec fn default_key_of(ps: Seq<Profile>, d: Option<String>) -> Option<Seq<char>> {
    match d {
        Some(k) if has_key(ps, k@) => Some(k@),
        _ => if ps.len() > 0 { Some(ps[0].key@) } else { None },
    }
}

/// The single profile the older layout of the section describes.
pub open spec fn migrated_profile(sec: LlmSection, p: Profile) -> bool {
    &&& (sec.base_url matches Some(base) && p.base_url == base)
    &&& (sec.model matches Some(model) && p.model == model)
    &&& p.key@ == (match preset_key_spec(strip_trailing(trim(p.base_url@), '/')) {
        Some(k) => k,
        None => "custom"@,
    })
    &&& p.api_key@ == (match sec.api_key {
        Some(k) => k@,
        None => Seq::<char>::empty(),
    })
    &&& p.protocol@ == (match sec.protocol {
        Some(k) => k@,
        None => "openai"@,
    })
    &&& p.thinking is None
}

fn opt_or_default(o: Option<String>) -> (r: String)
    ensures
        r@ == (match o {
            Some(k) => k@,
            None => Seq::<char>::empty(),
        }),
{
    match o {
        Some(k) => k,
        None => String::new(),
    }
}

/// The profiles of a parsed `[llm]` section: the
/// profile list and its default key; a section in the older layout (fields
/// directly in `[llm]`) becomes one profile named after its endpoint.
pub fn profiles_of_section(sec: LlmSection) -> (r: (Vec<Profile>, Option<String>))
    ensures
        sec.profiles@.len() > 0 ==> profiles_read(sec, r),
        sec.profiles@.len() == 0 && sec.base_url is Some && sec.model is Some ==> (r.0@.len() == 1
            && migrated_profile(sec, r.0@[0]) && (r.1 matches Some(k) && k@ == r.0@[0].key@)),
        sec.profiles@.len() == 0 && !(sec.base_url is Some && sec.model is Some) ==> r.0@.len() == 0
            && r.1 is None,
{
    let ghost old_sec = sec;
    let LlmSection { default, max_concurrency, profiles, base_url, api_key, model, protocol } = sec;
    if profiles.len() > 0 {
        let d = match default {
            Some(k) => {
                let i = find_profile(&profiles, &k);
                if i < profiles.len() {
                    Some(k)
                } else {
                    Some(profiles[0].key.clone())
                }
            },
            None => Some(profiles[0].key.clone()),
        };
        return (profiles, d);
    }
    match (base_url, model) {
        (Some(base), Some(model)) => {
            let key = match preset_key_for(&base) {
                Some(k) => k,
                None => "custom".to_owned(),
            };
            let protocol = match protocol {
                Some(p) => p,
                None => default_protocol(),
            };
            let profile = Profile {
                key,
                base_url: base,
                api_key: opt_or_default(api_key),
                model,
                protocol,
                thinking: None,
            };
            let d = Some(profile.key.clone());
            let mut v: Vec<Profile> = Vec::new();
            v.push(profile);
            (v, d)
        },
        _ => (Vec::new(), None),
    }
}

/// The section that `write_profiles` stores: the profiles, the default key,
/// and the concurrency limit kept from the previous section; the older
/// single-profile fields are dropped.
pub fn section_to_write(profiles: Vec<Profile>, default: Option<String>, prev_max: Option<u32>) -> (r: LlmSection)
    ensures
        r == (LlmSection {
            default,
            max_concurrency: prev_max,
            profiles,
            base_url: None,
            api_key: None,
            model: None,
            protocol: None,
        }),
{
    LlmSection { default, max_concurrency: prev_max, profiles, base_url: None, api_key: None, model: None, protocol: None }
}

/// Concurrency limit of parallel calls: the configured value (4 when absent), clamped to `1..=8`.
pub fn max_concurrency_of(configured: Option<u32>) -> (r: u32)
    ensures
        r == (match configured {
            None => 4,
            Some(v) => if v < 1 { 1 } else if v > 8 { 8 } else { v },
        }),
{
    let v = match configured {
        Some(v) => v,
        None => 4,
    };
    if v < 1 {
        1
    } else if v > 8 {
        8
    } else {
        v
    }
}

/// The masked preview of an API key.
pub open spec fn mask_spec(key: Seq<char>) -> Option<Seq<char>> {
    let k = trim(key);
    if k.len() == 0 {
        None
    } else if k.len() > 8 {
        Some(k.take(3) + seq!['\u{2026}'] + k.skip(k.len() - 4))
    } else {
        Some(seq!['\u{2022}', '\u{2022}', '\u{2022}', '\u{2022}'])
    }
}

/// A masked API key: first three and last four characters of the
/// trimmed key around `…`, `••••` for a key of at most eight characters, none
/// for a blank key.
pub fn mask_key(key: &str) -> (r: Option<String>)
    ensures
        match r {
            Some(m) => mask_spec(key@) == Some(m@),
            None => mask_spec(key@) is None,
        },
{
    let v = chars_of(key);
    let (a, b) = trim_span(&v, 0, v.len());
    assert(v@.subrange(0, v@.len() as int) =~= v@);
    let ghost k = v@.subrange(a as int, b as int);
    if a == b {
        return None;
    }
    let mut out: Vec<char> = Vec::new();
    if b - a > 8 {
        extend_range(&mut out, &v, a, a + 3);
        out.push('\u{2026}');
        extend_range(&mut out, &v, b - 4, b);
        assert(out@ =~= k.take(3) + seq!['\u{2026}'] + k.skip(k.len() - 4));
    } else {
        out.push('\u{2022}');
        out.push('\u{2022}');
        out.push('\u{2022}');
        out.push('\u{2022}');
        assert(out@ =~= seq!['\u{2022}', '\u{2022}', '\u{2022}', '\u{2022}']);
    }
    Some(string_of(&out))
}

/// Anthropic `budget_tokens` of a thinking level.
pub open spec fn budget_spec(level: Seq<char>) -> u32 {
    if level == "low"@ {
        2048
    } else if level == "high"@ {
        12288
    } else {
        8192
    }
}

/// The thinking budget of a level: `low` 2048, `high` 12288, anything else 8192
/// (all below the request's `max_tokens` of 16384).
pub fn thinking_budget(level: &str) -> (r: u32)
    ensures
        r == budget_spec(level@),
        r < 16384,
{
    if str_eq(level, "low") {
        2048
    } else if str_eq(level, "high") {
        12288
    } else {
        8192
    }
}

pub open spec fn max_u64(a: u64, b: u64) -> u64 {
    if a >= b { a } else { b }
}

/// Fieldwise maximum of two usage frames.
pub open spec fn usage_max(s: Usage, u: Usage) -> Usage {
    Usage {
        input: max_u64(s.input, u.input),
        output: max_u64(s.output, u.output),
        cache_read: max_u64(s.cache_read, u.cache_read),
        cache_write: max_u64(s.cache_write, u.cache_write),
    }
}

/// Merges a usage frame: the first frame is kept as it is; later
/// frames raise each count to the larger value.
pub fn merge_usage(slot: &mut Option<Usage>, u: Usage)
    ensures
        *final(slot) == (match *old(slot) {
            None => Some(u),
            Some(s) => Some(usage_max(s, u)),
        }),
{
    match slot {
        None => {
            *slot = Some(u);
        },
        Some(s) => {
            let m = Usage {
                input: if s.input >= u.input { s.input } else { u.input },
                output: if s.output >= u.output { s.output } else { u.output },
                cache_read: if s.cache_read >= u.cache_read { s.cache_read } else { u.cache_read },
                cache_write: if s.cache_write >= u.cache_write { s.cache_write } else { u.cache_write },
            };
            *slot = Some(m);
        },
    }
}

/// The messages endpoint of an Anthropic base URL.
pub open spec fn anthropic_url_spec(base: Seq<char>) -> Seq<char> {
    let b = strip_trailing(base, '/');
    if ends_with(b, "/v1"@) {
        b + "/messages"@
    } else {
        b + "/v1/messages"@
    }
}

/// The Anthropic messages endpoint: `{base}/messages` when the base (without
/// trailing `/`) already ends in `/v1`, else `{base}/v1/messages`.
pub fn anthropic_url(base: &str) -> (r: String)
    ensures
        r@ == anthropic_url_spec(base@),
{
    let v = chars_of(base);
    let e = strip_trailing_span(&v, 0, v.len(), '/');
    assert(v@.subrange(0, v@.len() as int) =~= v@);
    let mut out = slice_to_vec(&v, 0, e);
    let suffix = chars_of("/v1");
    let has_v1 = out.len() >= suffix.len() && matches_at(&out, &suffix, out.len() - suffix.len());
    if has_v1 {
        push_str_chars(&mut out, "/messages");
    } else {
        push_str_chars(&mut out, "/v1/messages");
    }
    string_of(&out)
}

/// The OpenAI-compatible completions endpoint: `{base}/chat/completions`,
/// the base without trailing `/`.
pub fn openai_url(base: &str) -> (r: String)
    ensures
        r@ == strip_trailing(base@, '/') + "/chat/completions"@,
{
    let v = chars_of(base);
    let e = strip_trailing_span(&v, 0, v.len(), '/');
    assert(v@.subrange(0, v@.len() as int) =~= v@);
    let mut out = slice_to_vec(&v, 0, e);
    push_str_chars(&mut out, "/chat/completions");
    string_of(&out)
}

/// The contents of the system messages joined by blank lines.
pub open spec fn system_text(ms: Seq<ChatMessage>) -> Seq<char> {
    crate::text::join(ms.filter(|m: ChatMessage| m.role@ == "system"@).map_values(|m: ChatMessage| m.content@), "\n\n"@)
}

/// The other messages, each sent as a user turn.
pub open spec fn user_turns(ms: Seq<ChatMessage>) -> Seq<Seq<char>> {
    ms.filter(|m: ChatMessage| m.role@ != "system"@).map_values(|m: ChatMessage| m.content@)
}

/// An Anthropic request's parts: the top-level `system` text (the system
/// messages joined by blank lines) and the contents of the other messages,
/// each sent as a user turn.
pub fn anthropic_parts(messages: &[ChatMessage]) -> (r: (String, Vec<String>))
    ensures
        r.0@ == system_text(messages@),
        r.1@.map_values(|t: String| t@) == user_turns(messages@),
{
    let ghost ms = messages@;
    let mut systems: Vec<Vec<char>> = Vec::new();
    let mut turns: Vec<String> = Vec::new();
    let mut i: usize = 0;
    while i < messages.len()
        invariant
            i <= ms.len(),
            ms == messages@,
            crate::text::seqs_view(systems@) == ms.take(i as int).filter(|m: ChatMessage| m.role@ == "system"@).map_values(|m: ChatMessage| m.content@),
            turns@.map_values(|t: String| t@) == user_turns(ms.take(i as int)),
        decreases ms.len() - i,
    {
        let m = &messages[i];
        let ghost before = ms.take(i as int);
        assert(ms.take(i as int + 1) =~= before.push(ms[i as int]));
        reveal(Seq::filter);
        assert(before.push(ms[i as int]).drop_last() =~= before);
        if str_eq(&m.role, "system") {
            let ghost sys_before = systems@;
            systems.push(chars_of(&m.content));
            assert(crate::text::seqs_view(systems@) =~= crate::text::seqs_view(sys_before).push(m.content@));
            assert(ms.take(i as int + 1).filter(|m: ChatMessage| m.role@ != "system"@) =~= before.filter(|m: ChatMessage| m.role@ != "system"@));
        } else {
            let ghost turns_before = turns@;
            turns.push(m.content.clone());
            assert(turns@.map_values(|t: String| t@) =~= turns_before.map_values(|t: String| t@).push(m.content@));
            assert(ms.take(i as int + 1).filter(|m: ChatMessage| m.role@ == "system"@) =~= before.filter(|m: ChatMessage| m.role@ == "system"@));
        }
        i = i + 1;
    }
    assert(ms.take(i as int) =~= ms);
    let joined = crate::text::join_pieces(&systems, "\n\n");
    (string_of(&joined), turns)
}

/// Statuses worth another attempt: 408, 409, 429 and the server errors.
pub open spec fn retryable_status(status: u16) -> bool {
    status == 408 || status == 409 || status == 429 || (500 <= status <= 599)
}

pub fn is_retryable_status(status: u16) -> (r: bool)
    ensures
        r == retryable_status(status),
{
    status == 408 || status == 409 || status == 429 || (500 <= status && status <= 599)
}

/// After a failed attempt: try again when the failure is retryable and
/// attempts remain.
pub fn should_retry(attempt: u32, max_attempts: u32, retryable: bool) -> (r: bool)
    ensures
        r == (retryable && attempt < max_attempts),
{
    retryable && attempt < max_attempts
}

// ---- tolerant JSON extraction ----

pub open spec fn fence() -> Seq<char> {
    seq!['`', '`', '`']
}

/// `s` with every trailing copy of `t` removed (`str::trim_end_matches(t)`).
pub open spec fn strip_suffix_all(s: Seq<char>, t: Seq<char>) -> Seq<char>
    decreases s.len(),
{
    if t.len() > 0 && s.len() >= t.len() && s.subrange(s.len() - t.len(), s.len() as int) == t {
        strip_suffix_all(s.take(s.len() - t.len()), t)
    } else {
        s
    }
}

/// The text without a surrounding code fence: after an opening fence the
/// rest of its line is dropped, and closing fences at the end are removed.
pub open spec fn unfenced(text: Seq<char>) -> Seq<char> {
    let s = trim(text);
    if s.len() >= 3 && s.take(3) == fence() {
        let rest = s.skip(3);
        let k = first_index_of(rest, '\n');
        let body = if k < rest.len() { rest.skip(k + 1 as int) } else { rest };
        trim(strip_suffix_all(trim_end(body), fence()))
    } else {
        s
    }
}

pub open spec fn not_json_open(c: char) -> bool {
    c != '{' && c != '['
}

pub open spec fn before_json() -> spec_fn(char) -> bool {
    |c: char| not_json_open(c)
}

/// Position of the last `}` or `]`.
pub open spec fn json_close(s: Seq<char>) -> Option<int> {
    match (last_index_in(s, 0, s.len() as int, '}'), last_index_in(s, 0, s.len() as int, ']')) {
        (Some(a), Some(b)) => Some(if a >= b { a } else { b }),
        (Some(a), None) => Some(a),
        (None, Some(b)) => Some(b),
        (None, None) => None,
    }
}

/// The JSON text inside a model reply: from the first `{` or `[` to the
/// last `}` or `]` of the unfenced text, or the reason there is none.
pub open spec fn json_text_spec(text: Seq<char>) -> Result<Seq<char>, Seq<char>> {
    let s = unfenced(text);
    let start = run_len(s, 0, before_json());
    if start >= s.len() {
        Err("输出中未找到 JSON"@)
    } else {
        match json_close(s) {
            None => Err("输出中未找到 JSON 结束符"@),
            Some(end) => if end <= start {
                Err("JSON 边界异常"@)
            } else {
                Ok(s.subrange(start as int, end + 1))
            },
        }
    }
}

fn strip_fences_span(s: &[char], lo: usize, hi: usize) -> (r: usize)
    requires
        lo <= hi <= s@.len(),
    ensures
        lo <= r <= hi,
        s@.subrange(lo as int, r as int) == strip_suffix_all(s@.subrange(lo as int, hi as int), fence()),
{
    let f = chars_of("```");
    proof {
        reveal_strlit("```");
    }
    assert(f@ =~= fence());
    let mut j = hi;
    while j - lo >= 3 && matches_at(s, &f, j - 3)
        invariant
            lo <= j <= hi <= s@.len(),
            f@ == fence(),
            strip_suffix_all(s@.subrange(lo as int, hi as int), fence()) == strip_suffix_all(s@.subrange(lo as int, j as int), fence()),
        decreases j - lo,
    {
        let ghost cur = s@.subrange(lo as int, j as int);
        assert(cur.subrange(cur.len() - 3, cur.len() as int) =~= s@.subrange(j - 3, j as int));
        assert(cur.take(cur.len() - 3) =~= s@.subrange(lo as int, j - 3));
        j -= 3;
    }
    proof {
        let cur = s@.subrange(lo as int, j as int);
        if cur.len() >= 3 {
            assert(cur.subrange(cur.len() - 3, cur.len() as int) =~= s@.subrange(j - 3, j as int));
        }
    }
    j
}

/// Bounds of the unfenced text inside `s`.
fn unfenced_span(s: &[char]) -> (r: (usize, usize))
    ensures
        r.0 <= r.1 <= s@.len(),
        s@.subrange(r.0 as int, r.1 as int) == unfenced(s@),
{
    let (a, b) = trim_span(s, 0, s.len());
    assert(s@.subrange(0, s@.len() as int) =~= s@);
    let ghost t = s@.subrange(a as int, b as int);
    let f = chars_of("```");
    proof {
        reveal_strlit("```");
    }
    assert(f@ =~= fence());
    if b - a >= 3 && matches_at(s, &f, a) {
        assert(t.take(3) =~= s@.subrange(a as int, a + 3));
        let ghost rest = t.skip(3);
        assert(rest =~= s@.subrange(a + 3, b as int));
        let mut k = a + 3;
        while k < b && s[k] != '\n'
            invariant
                a + 3 <= k <= b <= s@.len(),
                forall|m: int| a + 3 <= m < k ==> s@[m] != '\n',
            decreases b - k,
        {
            k += 1;
        }
        proof {
            lemma_first_index_of(rest, '\n', k - (a + 3));
        }
        let body_lo = if k < b { k + 1 } else { a + 3 };
        let ghost body = if k < b { rest.skip(k - (a + 3) + 1) } else { rest };
        proof {
            if k < b {
                assert(rest.skip(k - (a + 3) + 1) =~= s@.subrange(k + 1, b as int));
            } else {
                assert(rest =~= s@.subrange(a + 3, b as int));
            }
        }
        let e = trim_end_span(s, body_lo, b);
        let e2 = strip_fences_span(s, body_lo, e);
        let (x, y) = trim_span(s, body_lo, e2);
        (x, y)
    } else {
        proof {
            if t.len() >= 3 {
                assert(t.take(3) =~= s@.subrange(a as int, a + 3));
            }
        }
        (a, b)
    }
}

/// Bounds of the JSON text in a model reply (see `json_text_spec`).
pub fn json_bounds(s: &[char]) -> (r: Result<(usize, usize), String>)
    ensures
        match r {
            Ok((x, y)) => x <= y <= s@.len() && json_text_spec(s@) == Ok::<Seq<char>, Seq<char>>(s@.subrange(x as int, y as int)),
            Err(m) => json_text_spec(s@) == Err::<Seq<char>, Seq<char>>(m@),
        },
{
    let (a, b) = unfenced_span(s);
    let ghost u = s@.subrange(a as int, b as int);
    let ghost p = before_json();
    let mut i = a;
    while i < b && s[i] != '{' && s[i] != '['
        invariant
            a <= i <= b <= s@.len(),
            forall|m: int| a <= m < i ==> not_json_open(s@[m]),
        decreases b - i,
    {
        i += 1;
    }
    proof {
        lemma_run_len_bound(u, 0, p);
        lemma_run_len_exact(u, p, i - a);
    }
    if i >= b {
        return Err("输出中未找到 JSON".to_owned());
    }
    let ca = find_last_in(s, a, b, '}');
    let cb = find_last_in(s, a, b, ']');
    proof {
        lemma_last_index_shift(s@, a as int, b as int, '}');
        lemma_last_index_shift(s@, a as int, b as int, ']');
        lemma_last_index_range(s@, a as int, b as int, '}');
        lemma_last_index_range(s@, a as int, b as int, ']');
    }
    let end = match (ca, cb) {
        (Some(x), Some(y)) => if x >= y { x } else { y },
        (Some(x), None) => x,
        (None, Some(y)) => y,
        (None, None) => {
            return Err("输出中未找到 JSON 结束符".to_owned());
        },
    };
    if end <= i {
        return Err("JSON 边界异常".to_owned());
    }
    assert(u.subrange(i - a, end - a + 1) =~= s@.subrange(i as int, end + 1));
    Ok((i, end + 1))
}

/// A run of characters satisfying `p` that ends at `i` (or at the end) has length `i`.
pub proof fn lemma_run_len_exact(s: Seq<char>, p: spec_fn(char) -> bool, i: int)
    requires
        0 <= i <= s.len(),
        forall|k: int| 0 <= k < i ==> p(#[trigger] s[k]),
        i == s.len() || !p(s[i]),
    ensures
        run_len(s, 0, p) == i,
{
    lemma_run_len_from(s, p, 0, i);
}

proof fn lemma_run_len_from(s: Seq<char>, p: spec_fn(char) -> bool, from: int, i: int)
    requires
        0 <= from <= i <= s.len(),
        forall|k: int| from <= k < i ==> p(#[trigger] s[k]),
        i == s.len() || !p(s[i]),
    ensures
        run_len(s, from, p) == i - from,
    decreases i - from,
{
    if from < i {
        lemma_run_len_from(s, p, from + 1, i);
    }
}

pub proof fn lemma_last_index_range(s: Seq<char>, lo: int, hi: int, c: char)
    ensures
        last_index_in(s, lo, hi, c) matches Some(k) ==> lo <= k < hi && s[k] == c,
    decreases hi - lo,
{
    if hi > lo && s[hi - 1] != c {
        lemma_last_index_range(s, lo, hi - 1, c);
    }
}

/// `last_index_in` over a window, seen from inside the window.
pub proof fn lemma_last_index_shift(s: Seq<char>, lo: int, hi: int, c: char)
    requires
        0 <= lo <= hi <= s.len(),
    ensures
        match last_index_in(s, lo, hi, c) {
            Some(k) => last_index_in(s.subrange(lo, hi), 0, hi - lo, c) == Some(k - lo),
            None => last_index_in(s.subrange(lo, hi), 0, hi - lo, c) is None,
        },
    decreases hi - lo,
{
    if hi > lo {
        if s[hi - 1] != c {
            lemma_last_index_shift(s, lo, hi - 1, c);
            assert(s.subrange(lo, hi - 1) =~= s.subrange(lo, hi).subrange(0, hi - 1 - lo));
            lemma_last_index_prefix(s.subrange(lo, hi), hi - 1 - lo, c);
        }
    }
}

/// `last_index_in` over a prefix of a sequence equals it over the prefix alone.
pub proof fn lemma_last_index_prefix(t: Seq<char>, n: int, c: char)
    requires
        0 <= n <= t.len(),
    ensures
        last_index_in(t, 0, n, c) == last_index_in(t.subrange(0, n), 0, n, c),
    decreases n,
{
    if n > 0 {
        lemma_last_index_prefix(t, n - 1, c);
        lemma_last_index_prefix(t.subrange(0, n), n - 1, c);
        assert(t.subrange(0, n).subrange(0, n - 1) =~= t.subrange(0, n - 1));
    }
}

/// The JSON text of a model reply (the part that `extract_json` hands to the
/// JSON parser), or the reason none was found.
pub fn extract_json_text(text: &str) -> (r: Result<String, String>)
    ensures
        match r {
            Ok(j) => json_text_spec(text@) == Ok::<Seq<char>, Seq<char>>(j@),
            Err(m) => json_text_spec(text@) == Err::<Seq<char>, Seq<char>>(m@),
        },
{
    let v = chars_of(text);
    match json_bounds(&v) {
        Ok((x, y)) => Ok(string_of(&slice_to_vec(&v, x, y))),
        Err(m) => Err(m),
    }
}


/// The string member `key` of the JSON value that `json` holds: none when
/// `json` is not JSON text, `Some(None)` when the value has no such member
/// or the member is not a string.
pub uninterp spec fn json_string_member(json: Seq<char>, key: Seq<char>) -> Option<Option<Seq<char>>>;

pub open spec fn opt_opt_view(r: Option<Option<String>>) -> Option<Option<Seq<char>>> {
    match r {
        None => None,
        Some(None) => Some(None),
        Some(Some(s)) => Some(Some(s@)),
    }
}

/// Parses `json` with `serde_json::from_str` into a `serde_json::Value`,
/// then reads the member `key` with `Value::get` and `Value::as_str`. The
/// result is named, not described: what serde_json accepts as JSON text and
/// how it decodes escapes is left unsaid.
#[verifier::external_body]
pub(crate) fn json_str_member(json: &str, key: &str) -> (r: Option<Option<String>>)
    ensures
        opt_opt_view(r) == json_string_member(json@, key@),
{
    match serde_json::from_str::<serde_json::Value>(json) {
        Ok(v) => Some(v.get(key).and_then(|m| m.as_str()).map(|m| m.to_string())),
        Err(_) => None,
    }
}

// ---- streamed responses ----

/// One decoded line of a streamed response.
#[derive(Debug, Clone, PartialEq)]
pub enum StreamChunk {
    Text(String),
    Thinking(String),
    Usage(Usage),
    Done,
}

/// Takes the first complete line (up to `\n`, trailing `\r` removed) out
/// of the bytes received so far; none while no line is complete.
pub fn take_line(buf: &mut String) -> (r: Option<String>)
    ensures
        ({
            let p = first_index_of(old(buf)@, '\n');
            match r {
                None => p == old(buf)@.len() && final(buf)@ == old(buf)@,
                Some(l) => p < old(buf)@.len() && l@ == strip_trailing(old(buf)@.take(p as int), '\r')
                    && final(buf)@ == old(buf)@.skip(p + 1 as int),
            }
        }),
{
    let v = chars_of(buf);
    let mut p: usize = 0;
    while p < v.len() && v[p] != '\n'
        invariant
            p <= v@.len(),
            forall|k: int| 0 <= k < p ==> v@[k] != '\n',
        decreases v@.len() - p,
    {
        p += 1;
    }
    proof {
        lemma_first_index_of(v@, '\n', p as int);
    }
    if p >= v.len() {
        return None;
    }
    let e = strip_trailing_span(&v, 0, p, '\r');
    let line = string_of(&slice_to_vec(&v, 0, e));
    assert(v@.subrange(0, p as int) =~= v@.take(p as int));
    let rest = slice_to_vec(&v, p + 1, v.len());
    assert(rest@ =~= v@.skip(p + 1));
    *buf = string_of(&rest);
    Some(line)
}

/// The payload of a server-sent event line: after `data:`, trimmed.
pub open spec fn sse_data_spec(line: Seq<char>) -> Option<Seq<char>> {
    if line.len() >= 5 && line.take(5) == "data:"@ {
        Some(trim(line.skip(5)))
    } else {
        None
    }
}

pub fn sse_data(line: &str) -> (r: Option<String>)
    ensures
        match r {
            Some(d) => sse_data_spec(line@) == Some(d@),
            None => sse_data_spec(line@) is None,
        },
{
    let v = chars_of(line);
    let p = chars_of("data:");
    if v.len() >= p.len() && matches_at(&v, &p, 0) {
        proof {
            reveal_strlit("data:");
        }
        assert(v@.subrange(0, 5) =~= v@.take(5));
        let (a, b) = trim_span(&v, 5, v.len());
        assert(v@.subrange(5, v@.len() as int) =~= v@.skip(5));
        Some(string_of(&slice_to_vec(&v, a, b)))
    } else {
        proof {
            reveal_strlit("data:");
            if v@.len() >= 5 {
                assert(v@.subrange(0, 5) =~= v@.take(5));
            }
        }
        None
    }
}

/// The usage counters of an OpenAI-compatible frame (zero when absent).
#[derive(Debug, Clone, Copy, PartialEq)]
pub struct OpenAiUsage {
    pub prompt_tokens: u64,
    pub completion_tokens: u64,
    pub prompt_cache_hit_tokens: u64,
    pub cache_read_input_tokens: u64,
    pub prompt_cache_miss_tokens: u64,
    pub cache_creation_input_tokens: u64,
}

/// The `delta` of the first choice of an OpenAI-compatible frame.
#[derive(Debug, Clone, PartialEq)]
pub struct OpenAiDelta {
    /// `reasoning_content` when it is a string.
    pub reasoning_content: Option<String>,
    /// `content` when it is a string.
    pub content: Option<String>,
}

/// What the line handler reads of an OpenAI-compatible frame: its `usage`
/// when it is an object, and the delta of its first choice.
#[derive(Debug, Clone, PartialEq)]
pub struct OpenAiFrame {
    pub usage: Option<OpenAiUsage>,
    pub delta: Option<OpenAiDelta>,
}

pub open spec fn openai_usage(u: OpenAiUsage) -> Usage {
    Usage {
        input: u.prompt_tokens,
        output: u.completion_tokens,
        cache_read: max_u64(u.prompt_cache_hit_tokens, u.cache_read_input_tokens),
        cache_write: max_u64(u.prompt_cache_miss_tokens, u.cache_creation_input_tokens),
    }
}

/// The chunk of one OpenAI-compatible stream line, after the JSON of the payload was
/// read into `frame` (none when it is not JSON): `[DONE]` ends the stream, a
/// usage frame gives the usage (DeepSeek's cache names or the standard ones,
/// the larger), else the reasoning or the text delta when not empty.
pub open spec fn openai_chunk_spec(data: Seq<char>, frame: Option<OpenAiFrame>) -> Option<StreamChunk> {
    if data == "[DONE]"@ {
        Some(StreamChunk::Done)
    } else {
        match frame {
            None => None,
            Some(f) => match f.usage {
                Some(u) => Some(StreamChunk::Usage(openai_usage(u))),
                None => match f.delta {
                    None => None,
                    Some(d) => match d.reasoning_content {
                        Some(t) if t@.len() > 0 => Some(StreamChunk::Thinking(t)),
                        _ => match d.content {
                            Some(t) if t@.len() > 0 => Some(StreamChunk::Text(t)),
                            _ => None,
                        },
                    },
                },
            },
        }
    }
}

pub fn openai_chunk(data: &str, frame: Option<OpenAiFrame>) -> (r: Option<StreamChunk>)
    ensures
        r == openai_chunk_spec(data@, frame),
{
    if str_eq(data, "[DONE]") {
        return Some(StreamChunk::Done);
    }
    match frame {
        None => None,
        Some(f) => match f.usage {
            Some(u) => Some(StreamChunk::Usage(Usage {
                input: u.prompt_tokens,
                output: u.completion_tokens,
                cache_read: if u.prompt_cache_hit_tokens >= u.cache_read_input_tokens {
                    u.prompt_cache_hit_tokens
                } else {
                    u.cache_read_input_tokens
                },
                cache_write: if u.prompt_cache_miss_tokens >= u.cache_creation_input_tokens {
                    u.prompt_cache_miss_tokens
                } else {
                    u.cache_creation_input_tokens
                },
            })),
            None => match f.delta {
                None => None,
                Some(d) => {
                    match d.reasoning_content {
                        Some(t) => {
                            if chars_of(&t).len() > 0 {
                                return Some(StreamChunk::Thinking(t));
                            }
                        },
                        None => {},
                    }
                    match d.content {
                        Some(t) => if chars_of(&t).len() > 0 {
                            Some(StreamChunk::Text(t))
                        } else {
                            None
                        },
                        None => None,
                    }
                },
            },
        },
    }
}

/// What the line handler reads of an Anthropic frame.
#[derive(Debug, Clone, PartialEq)]
pub struct AnthropicFrame {
    /// The `type` of the event.
    pub kind: String,
    /// `message.usage` of a `message_start` event.
    pub message_usage: Option<Usage>,
    /// `usage.output_tokens` of a `message_delta` event (none without `usage`).
    pub delta_output: Option<u64>,
    /// `delta.type` of a `content_block_delta` event.
    pub delta_type: Option<String>,
    /// `delta.text` when it is a string.
    pub delta_text: Option<String>,
    /// `delta.thinking` when it is a string.
    pub delta_thinking: Option<String>,
}

pub open spec fn nonempty_text(t: Option<String>, thinking: bool) -> Option<StreamChunk> {
    match t {
        Some(s) => if s@.len() > 0 {
            Some(if thinking { StreamChunk::Thinking(s) } else { StreamChunk::Text(s) })
        } else {
            None
        },
        None => None,
    }
}

/// The chunk of one Anthropic stream line, after the JSON of the payload
/// was read into `frame` (none when it is not JSON or has no type).
pub open spec fn anthropic_chunk_spec(frame: Option<AnthropicFrame>) -> Option<StreamChunk> {
    match frame {
        None => None,
        Some(f) => if f.kind@ == "message_start"@ {
            match f.message_usage {
                Some(u) => Some(StreamChunk::Usage(u)),
                None => None,
            }
        } else if f.kind@ == "message_delta"@ {
            match f.delta_output {
                Some(o) => Some(StreamChunk::Usage(Usage { input: 0, output: o, cache_read: 0, cache_write: 0 })),
                None => None,
            }
        } else if f.kind@ == "content_block_delta"@ {
            match f.delta_type {
                Some(t) => if t@ == "text_delta"@ {
                    nonempty_text(f.delta_text, false)
                } else if t@ == "thinking_delta"@ {
                    nonempty_text(f.delta_thinking, true)
                } else {
                    None
                },
                None => None,
            }
        } else if f.kind@ == "message_stop"@ {
            Some(StreamChunk::Done)
        } else {
            None
        },
    }
}

fn nonempty_chunk(t: Option<String>, thinking: bool) -> (r: Option<StreamChunk>)
    ensures
        r == nonempty_text(t, thinking),
{
    match t {
        Some(s) => if chars_of(&s).len() > 0 {
            Some(if thinking { StreamChunk::Thinking(s) } else { StreamChunk::Text(s) })
        } else {
            None
        },
        None => None,
    }
}

pub fn anthropic_chunk(frame: Option<AnthropicFrame>) -> (r: Option<StreamChunk>)
    ensures
        r == anthropic_chunk_spec(frame),
{
    match frame {
        None => None,
        Some(f) => {
            if str_eq(&f.kind, "message_start") {
                match f.message_usage {
                    Some(u) => Some(StreamChunk::Usage(u)),
                    None => None,
                }
            } else if str_eq(&f.kind, "message_delta") {
                match f.delta_output {
                    Some(o) => Some(StreamChunk::Usage(Usage { input: 0, output: o, cache_read: 0, cache_write: 0 })),
                    None => None,
                }
            } else if str_eq(&f.kind, "content_block_delta") {
                match f.delta_type {
                    Some(t) => if str_eq(&t, "text_delta") {
                        nonempty_chunk(f.delta_text, false)
                    } else if str_eq(&t, "thinking_delta") {
                        nonempty_chunk(f.delta_thinking, true)
                    } else {
                        None
                    },
                    None => None,
                }
            } else if str_eq(&f.kind, "message_stop") {
                Some(StreamChunk::Done)
            } else {
                None
            }
        },
    }
}

/// What a streamed call has gathered.
#[derive(Debug, Clone, PartialEq)]
pub struct StreamState {
    pub text: String,
    pub thinking: String,
    pub usage: Option<Usage>,
}

/// Applies one chunk to the gathered output; true when the stream is done.
pub fn apply_chunk(state: &mut StreamState, chunk: StreamChunk) -> (done: bool)
    ensures
        match chunk {
            StreamChunk::Text(t) => !done && final(state).text@ == old(state).text@ + t@
                && final(state).thinking == old(state).thinking && final(state).usage == old(state).usage,
            StreamChunk::Thinking(t) => !done && final(state).thinking@ == old(state).thinking@ + t@
                && final(state).text == old(state).text && final(state).usage == old(state).usage,
            StreamChunk::Usage(u) => !done && final(state).usage == (match old(state).usage {
                None => Some(u),
                Some(s) => Some(usage_max(s, u)),
            }) && final(state).text == old(state).text && final(state).thinking == old(state).thinking,
            StreamChunk::Done => done && *final(state) == *old(state),
        },
{
    match chunk {
        StreamChunk::Text(t) => {
            let mut v = chars_of(&state.text);
            push_str_chars(&mut v, &t);
            state.text = string_of(&v);
            false
        },
        StreamChunk::Thinking(t) => {
            let mut v = chars_of(&state.thinking);
            push_str_chars(&mut v, &t);
            state.thinking = string_of(&v);
            false
        },
        StreamChunk::Usage(u) => {
            merge_usage(&mut state.usage, u);
            false
        },
        StreamChunk::Done => true,
    }
}

/// How a streamed attempt ends.
#[derive(Debug, Clone, PartialEq)]
pub enum StreamEnd {
    /// Try the whole call again.
    Retry,
    /// Ask once more without streaming; the cause goes into any error.
    Fallback(String),
    /// The gathered output is the result.
    Output,
}

/// What follows the stream of one attempt: an
/// interrupted stream is retried while attempts remain, then falls back to a
/// call without streaming; a blank result falls back too.
pub fn stream_end(stream_error: Option<String>, received_chars: usize, attempt: u32, max_attempts: u32, text: &str) -> (r: StreamEnd)
    ensures
        match stream_error {
            Some(e) => if attempt < max_attempts {
                r == StreamEnd::Retry
            } else {
                r matches StreamEnd::Fallback(c) && c@ == "流式响应中断："@ + e@ + "（已收 "@ + decimal(received_chars as nat)
                    + " 字符 / 尝试 "@ + decimal(attempt as nat) + "）"@
            },
            None => if trim(text@).len() == 0 {
                r matches StreamEnd::Fallback(c) && c@ == "上游流式响应为空（疑似截断）"@
            } else {
                r == StreamEnd::Output
            },
        },
{
    match stream_error {
        Some(e) => {
            if attempt < max_attempts {
                StreamEnd::Retry
            } else {
                let mut v: Vec<char> = Vec::new();
                push_str_chars(&mut v, "流式响应中断：");
                push_str_chars(&mut v, &e);
                push_str_chars(&mut v, "（已收 ");
                crate::text::push_decimal(&mut v, received_chars as u64);
                push_str_chars(&mut v, " 字符 / 尝试 ");
                crate::text::push_decimal(&mut v, attempt as u64);
                push_str_chars(&mut v, "）");
                StreamEnd::Fallback(string_of(&v))
            }
        },
        None => {
            if is_blank(text) {
                StreamEnd::Fallback("上游流式响应为空（疑似截断）".to_owned())
            } else {
                StreamEnd::Output
            }
        },
    }
}

/// The verdict of a connection test on the status of the
/// ping: success (429 counts: the key was accepted), or the error shown.
pub fn connection_verdict(status: u16, status_text: &str, body: &str) -> (r: Result<(), LlmError>)
    ensures
        status == 429 || (200 <= status < 300) ==> r is Ok,
        (status == 401 || status == 403) ==> (r matches Err(e) && !e.retryable && e.message@ == "密钥无效或无权限"@),
        status == 404 ==> (r matches Err(e) && !e.retryable && e.message@ == "端点或模型不存在（检查端点与模型名）"@),
        !(status == 429 || (200 <= status < 300) || status == 401 || status == 403 || status == 404) ==> (r matches Err(e)
            && e.retryable == (500 <= status <= 599)
            && e.message@ == "上游返回 "@ + status_text@ + "："@ + body@.take(if body@.len() < 200 { body@.len() as int } else { 200 })),
{
    if status == 429 || (200 <= status && status < 300) {
        return Ok(());
    }
    if status == 401 || status == 403 {
        return Err(LlmError { retryable: false, message: "密钥无效或无权限".to_owned() });
    }
    if status == 404 {
        return Err(LlmError { retryable: false, message: "端点或模型不存在（检查端点与模型名）".to_owned() });
    }
    let b = chars_of(body);
    let n = if b.len() < 200 { b.len() } else { 200 };
    let mut v: Vec<char> = Vec::new();
    push_str_chars(&mut v, "上游返回 ");
    push_str_chars(&mut v, status_text);
    push_str_chars(&mut v, "：");
    extend_range(&mut v, &b, 0, n);
    assert(b@.subrange(0, n as int) =~= body@.take(n as int));
    Err(LlmError { retryable: 500 <= status && status <= 599, message: string_of(&v) })
}

// ---- errors and the non-streaming fallback ----

/// The first `n` characters of `s` (all of it when shorter).
pub open spec fn head(s: Seq<char>, n: int) -> Seq<char> {
    s.take(if s.len() < n { s.len() as int } else { n })
}

fn push_head(v: &mut Vec<char>, s: &str, n: usize)
    ensures
        final(v)@ == old(v)@ + head(s@, n as int),
{
    let b = chars_of(s);
    let k = if b.len() < n { b.len() } else { n };
    extend_range(v, &b, 0, k);
    assert(b@.subrange(0, k as int) =~= head(s@, n as int));
}

/// A refused call before any stream: retryable for 408, 409, 429 and 5xx,
/// with the status and the first 500 characters of the body.
pub fn upstream_error(status: u16, status_text: &str, body: &str) -> (r: LlmError)
    ensures
        r.retryable == retryable_status(status),
        r.message@ == "上游返回 "@ + status_text@ + "："@ + head(body@, 500),
{
    let mut v: Vec<char> = Vec::new();
    push_str_chars(&mut v, "上游返回 ");
    push_str_chars(&mut v, status_text);
    push_str_chars(&mut v, "：");
    push_head(&mut v, body, 500);
    LlmError { retryable: is_retryable_status(status), message: string_of(&v) }
}

/// A content block of an Anthropic reply read without streaming.
#[derive(Debug, Clone, PartialEq)]
pub struct AnthropicBlock {
    /// The block's `type` (empty when absent).
    pub kind: String,
    pub text: Option<String>,
    pub thinking: Option<String>,
}

/// The text (or thinking) of the blocks of type `kind`, concatenated.
pub open spec fn blocks_text(bs: Seq<AnthropicBlock>, kind: Seq<char>, thinking: bool) -> Seq<char>
    decreases bs.len(),
{
    if bs.len() == 0 {
        Seq::empty()
    } else {
        let b = bs.last();
        let piece = if b.kind@ == kind {
            match (if thinking { b.thinking } else { b.text }) {
                Some(t) => t@,
                None => Seq::empty(),
            }
        } else {
            Seq::empty()
        };
        blocks_text(bs.drop_last(), kind, thinking) + piece
    }
}

fn collect_blocks(bs: &[AnthropicBlock], kind: &str, thinking: bool) -> (r: String)
    ensures
        r@ == blocks_text(bs@, kind@, thinking),
{
    let mut v: Vec<char> = Vec::new();
    let mut i: usize = 0;
    while i < bs.len()
        invariant
            i <= bs@.len(),
            v@ == blocks_text(bs@.take(i as int), kind@, thinking),
        decreases bs@.len() - i,
    {
        assert(bs@.take(i as int + 1).drop_last() =~= bs@.take(i as int));
        let b = &bs[i];
        if str_eq(&b.kind, kind) {
            let part = if thinking { &b.thinking } else { &b.text };
            match part {
                Some(t) => push_str_chars(&mut v, t),
                None => {},
            }
        }
        i = i + 1;
    }
    assert(bs@.take(i as int) =~= bs@);
    string_of(&v)
}

/// The output of an Anthropic reply read without streaming: the `text`
/// blocks as text, the `thinking` blocks as thinking.
pub fn anthropic_fallback_output(blocks: &[AnthropicBlock], usage: Option<Usage>) -> (r: ChatOutput)
    ensures
        r.text@ == blocks_text(blocks@, "text"@, false),
        r.thinking@ == blocks_text(blocks@, "thinking"@, true),
        r.usage == usage,
        r.fallback,
{
    let text = collect_blocks(blocks, "text", false);
    let thinking = collect_blocks(blocks, "thinking", true);
    ChatOutput { text, thinking, usage, fallback: true }
}

/// The usage of an OpenAI-compatible reply (DeepSeek's cache names or the
/// standard ones, the larger).
pub fn openai_usage_of(u: OpenAiUsage) -> (r: Usage)
    ensures
        r == openai_usage(u),
{
    Usage {
        input: u.prompt_tokens,
        output: u.completion_tokens,
        cache_read: if u.prompt_cache_hit_tokens >= u.cache_read_input_tokens {
            u.prompt_cache_hit_tokens
        } else {
            u.cache_read_input_tokens
        },
        cache_write: if u.prompt_cache_miss_tokens >= u.cache_creation_input_tokens {
            u.prompt_cache_miss_tokens
        } else {
            u.cache_creation_input_tokens
        },
    }
}

/// The output of an OpenAI-compatible reply read without streaming, given
/// the first choice's message fields (absent ones empty).
pub fn openai_fallback_output(content: Option<String>, reasoning: Option<String>, usage: Option<OpenAiUsage>) -> (r: ChatOutput)
    ensures
        r.text@ == (match content { Some(t) => t@, None => Seq::empty() }),
        r.thinking@ == (match reasoning { Some(t) => t@, None => Seq::empty() }),
        r.usage == (match usage { Some(u) => Some(openai_usage(u)), None => None }),
        r.fallback,
{
    let text = match content {
        Some(t) => t,
        None => String::new(),
    };
    let thinking = match reasoning {
        Some(t) => t,
        None => String::new(),
    };
    let usage = match usage {
        Some(u) => Some(openai_usage_of(u)),
        None => None,
    };
    ChatOutput { text, thinking, usage, fallback: true }
}

/// The fallback call itself was refused: retryable as a first call would
/// be, with the cause and the first 300 characters of the body.
pub fn fallback_status_error(cause: &str, status: u16, status_text: &str, body: &str) -> (r: LlmError)
    ensures
        r.retryable == retryable_status(status),
        r.message@ == cause@ + "；兜底上游返回 "@ + status_text@ + "："@ + head(body@, 300),
{
    let mut v: Vec<char> = Vec::new();
    push_str_chars(&mut v, cause);
    push_str_chars(&mut v, "；兜底上游返回 ");
    push_str_chars(&mut v, status_text);
    push_str_chars(&mut v, "：");
    push_head(&mut v, body, 300);
    LlmError { retryable: is_retryable_status(status), message: string_of(&v) }
}

/// The result of the fallback: its output when it parsed and has text,
/// else a retryable error with the cause and the first 200 characters of the body.
pub fn fallback_result(out: Option<ChatOutput>, cause: &str, body: &str) -> (r: Result<ChatOutput, LlmError>)
    ensures
        match out {
            Some(o) if trim(o.text@).len() > 0 => r == Ok::<ChatOutput, LlmError>(o),
            _ => r matches Err(e) && e.retryable
                && e.message@ == cause@ + "；兜底响应解析失败或为空；开头："@ + head(body@, 200),
        },
{
    match out {
        Some(o) => {
            if !is_blank(&o.text) {
                return Ok(o);
            }
        },
        None => {},
    }
    let mut v: Vec<char> = Vec::new();
    push_str_chars(&mut v, cause);
    push_str_chars(&mut v, "；兜底响应解析失败或为空；开头：");
    push_head(&mut v, body, 200);
    Err(LlmError { retryable: true, message: string_of(&v) })
}

// ---- laws ----

/// Law of the profile list: when there is at least one profile, its
/// default key names one of them (the configured one, else the first).
pub proof fn law_default_key_names_a_profile(ps: Seq<Profile>, d: Option<String>)
    requires
        ps.len() > 0,
    ensures
        default_key_of(ps, d) matches Some(k) && has_key(ps, k),
{
    assert(key_pos(ps, ps[0].key@) == 0);
}

/// What `profiles_of_section` returns for a section with profiles.
pub open spec fn profiles_read(sec: LlmSection, r: (Vec<Profile>, Option<String>)) -> bool {
    r.0@ == sec.profiles@ && (match r.1 {
        Some(k) => default_key_of(sec.profiles@, sec.default) == Some(k@),
        None => default_key_of(sec.profiles@, sec.default) is None,
    })
}

/// Law of the `[llm]` section: profiles written with `section_to_write`
/// read back as the same profiles; the default read back is the one written
/// when it names a profile, else the first profile's key.
pub proof fn law_profiles_read_back(
    profiles: Vec<Profile>,
    default: Option<String>,
    max: Option<u32>,
    written: LlmSection,
    read: (Vec<Profile>, Option<String>),
)
    requires
        profiles@.len() > 0,
        written == (LlmSection {
            default,
            max_concurrency: max,
            profiles,
            base_url: None,
            api_key: None,
            model: None,
            protocol: None,
        }),
        profiles_read(written, read),
    ensures
        read.0@ == profiles@,
        default is Some && has_key(profiles@, default->0@) ==> (read.1 matches Some(k) && k@ == default->0@),
        !(default is Some && has_key(profiles@, default->0@)) ==> (read.1 matches Some(k) && k@ == profiles@[0].key@),
        written.max_concurrency == max,
{
}

/// Law of key masking: the preview never shows a key in full (a key that
/// is itself `••••` excepted).
pub proof fn law_mask_hides_key(key: Seq<char>)
    requires
        trim(key) != seq!['\u{2022}', '\u{2022}', '\u{2022}', '\u{2022}'],
    ensures
        mask_spec(key) matches Some(m) ==> m != trim(key) && m.len() <= 8,
{
    let k = trim(key);
    if k.len() > 8 {
        assert((k.take(3) + seq!['\u{2026}'] + k.skip(k.len() - 4)).len() == 8);
    }
}

/// Law of usage merging: a merged count is never below either frame's count.
pub proof fn law_merge_usage_monotone(s: Usage, u: Usage)
    ensures
        usage_max(s, u).input >= s.input && usage_max(s, u).input >= u.input,
        usage_max(s, u).output >= s.output && usage_max(s, u).output >= u.output,
        usage_max(s, u).cache_read >= s.cache_read && usage_max(s, u).cache_read >= u.cache_read,
        usage_max(s, u).cache_write >= s.cache_write && usage_max(s, u).cache_write >= u.cache_write,
{
}

} // verus!
