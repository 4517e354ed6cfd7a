//! Model profiles as the settings screen manages them: listing with masked
//! keys, registering or updating a profile, and deleting one, over the
//! profile list and default key of the `[llm]` section.

use vstd::prelude::*;
use crate::error::{bad_request, failure, ApiFailure, ErrorKind};
use crate::llm::{
    clone_opt_string, default_key_of, find_profile, has_key, key_pos, mask_key, mask_spec, Profile,
};
use crate::text::{chars_of, is_blank, matches_at, occurs_at, starts_with, str_eq, trim, trimmed};

verus! {

/// A profile as listed: its key is never shown, only whether it is set and a masked preview.
#[derive(Debug, Clone, PartialEq)]
pub struct ProfileSummary {
    pub key: String,
    pub base_url: String,
    pub model: String,
    pub protocol: String,
    pub thinking: Option<String>,
    pub api_key_set: bool,
    pub api_key_preview: Option<String>,
}

#[derive(Debug, Clone, PartialEq)]
pub struct ProfileListResponse {
    pub profiles: Vec<ProfileSummary>,
    /// Key of the default profile (none when there is no profile).
    pub default_key: Option<String>,
}

#[derive(Debug, Clone, PartialEq)]
pub struct ProfileTestResponse {
    pub ok: bool,
    pub message: String,
    pub latency_ms: Option<u64>,
}

/// Input of a registration or update.
#[derive(Debug, Clone, PartialEq)]
pub struct ProfileInput {
    pub key: String,
    pub base_url: String,
    pub model: String,
    pub protocol: Option<String>,
    pub thinking: Option<String>,
    pub api_key: Option<String>,
}

/// Request body of the profile registration.
#[derive(Debug, Clone, PartialEq)]
pub struct UpsertProfileRequest {
    pub key: String,
    pub base_url: String,
    pub model: String,
    pub protocol: Option<String>,
    pub thinking: Option<String>,
    pub api_key: Option<String>,
}

/// Request body naming a profile.
#[derive(Debug, Clone, PartialEq)]
pub struct ProfileKeyRequest {
    pub key: String,
}

/// Request body choosing the default profile.
#[derive(Debug, Clone, PartialEq)]
pub struct SetDefaultRequest {
    pub key: String,
}

pub type ProfileV = (Seq<char>, Seq<char>, Seq<char>, Seq<char>, Seq<char>, Option<Seq<char>>);

pub open spec fn opt_view(o: Option<String>) -> Option<Seq<char>> {
    match o {
        Some(s) => Some(s@),
        None => None,
    }
}

pub open spec fn profile_view(p: Profile) -> ProfileV {
    (p.key@, p.base_url@, p.api_key@, p.model@, p.protocol@, opt_view(p.thinking))
}

pub open spec fn profiles_view(ps: Seq<Profile>) -> Seq<ProfileV> {
    ps.map_values(|p: Profile| profile_view(p))
}

/// `s` lists `p`: every field copied, the key replaced by whether it is set
/// and its masked preview.
pub open spec fn lists(s: ProfileSummary, p: Profile) -> bool {
    &&& s.key@ == p.key@
    &&& s.base_url@ == p.base_url@
    &&& s.model@ == p.model@
    &&& s.protocol@ == p.protocol@
    &&& opt_view(s.thinking) == opt_view(p.thinking)
    &&& s.api_key_set == (trim(p.api_key@).len() > 0)
    &&& opt_view(s.api_key_preview) == mask_spec(p.api_key@)
}

/// The listed form of a profile: its key masked.
pub fn summary(p: &Profile) -> (r: ProfileSummary)
    ensures
        lists(r, *p),
{
    let preview = mask_key(&p.api_key);
    ProfileSummary {
        key: p.key.clone(),
        base_url: p.base_url.clone(),
        model: p.model.clone(),
        protocol: p.protocol.clone(),
        thinking: clone_opt_string(&p.thinking),
        api_key_set: !is_blank(&p.api_key),
        api_key_preview: preview,
    }
}

/// The profile list, on the profiles read and their default key.
pub fn list_response(profiles: &[Profile], default_key: Option<String>) -> (r: ProfileListResponse)
    ensures
        r.profiles@.len() == profiles@.len(),
        forall|i: int| 0 <= i < profiles@.len() ==> lists(#[trigger] r.profiles@[i], profiles@[i]),
        r.default_key == default_key,
{
    let mut out: Vec<ProfileSummary> = Vec::new();
    let mut i: usize = 0;
    while i < profiles.len()
        invariant
            i <= profiles@.len(),
            out@.len() == i,
            forall|k: int| 0 <= k < i ==> lists(#[trigger] out@[k], profiles@[k]),
        decreases profiles@.len() - i,
    {
        out.push(summary(&profiles[i]));
        i += 1;
    }
    ProfileListResponse { profiles: out, default_key }
}

/// The trimmed value, when it is not blank.
pub open spec fn opt_trim(o: Option<String>) -> Option<Seq<char>> {
    match o {
        Some(s) => if trim(s@).len() > 0 { Some(trim(s@)) } else { None },
        None => None,
    }
}

/// A profile key: not empty, without `/`, `\` or space.
pub open spec fn key_ok(k: Seq<char>) -> bool {
    k.len() > 0 && forall|i: int| 0 <= i < k.len() ==> (#[trigger] k[i]) != '/' && k[i] != '\\' && k[i] != ' '
}

/// The protocol of an input: trimmed, `openai` when blank.
pub open spec fn input_protocol(input: ProfileInput) -> Seq<char> {
    match opt_trim(input.protocol) {
        Some(p) => p,
        None => "openai"@,
    }
}

/// Why an input is refused, checked in this order.
pub open spec fn input_error(input: ProfileInput) -> Option<Seq<char>> {
    let key = trim(input.key@);
    let base = trim(input.base_url@);
    let protocol = input_protocol(input);
    if !key_ok(key) {
        Some("档案 key 非法"@)
    } else if !starts_with(base, "http://"@) && !starts_with(base, "https://"@) {
        Some("端点地址需以 http:// 或 https:// 开头"@)
    } else if trim(input.model@).len() == 0 {
        Some("模型名不能为空"@)
    } else if protocol != "openai"@ && protocol != "anthropic"@ {
        Some("协议仅支持 openai / anthropic"@)
    } else if (opt_trim(input.thinking) matches Some(t) && t != "low"@ && t != "medium"@ && t != "high"@) {
        Some("思考强度仅支持 low / medium / high（或不填不启用）"@)
    } else {
        None
    }
}

/// An existing profile after an update with `input`: endpoint, model and
/// protocol replaced; thinking and key replaced only when given.
pub open spec fn updated_profile(p: ProfileV, input: ProfileInput) -> ProfileV {
    (
        p.0,
        trim(input.base_url@),
        match opt_trim(input.api_key) {
            Some(k) => k,
            None => p.2,
        },
        trim(input.model@),
        input_protocol(input),
        match opt_trim(input.thinking) {
            Some(t) => Some(t),
            None => p.5,
        },
    )
}

/// A profile created from `input`.
pub open spec fn new_profile(input: ProfileInput) -> ProfileV {
    (
        trim(input.key@),
        trim(input.base_url@),
        text_of(opt_trim(input.api_key)),
        trim(input.model@),
        input_protocol(input),
        opt_trim(input.thinking),
    )
}

pub open spec fn text_of(o: Option<Seq<char>>) -> Seq<char> {
    match o {
        Some(t) => t,
        None => Seq::<char>::empty(),
    }
}

fn opt_trimmed(o: &Option<String>) -> (r: Option<String>)
    ensures
        opt_view(r) == opt_trim(*o),
{
    match o {
        Some(s) => if is_blank(s) {
            None
        } else {
            Some(trimmed(s))
        },
        None => None,
    }
}

fn has_prefix(s: &str, p: &str) -> (r: bool)
    ensures
        r == starts_with(s@, p@),
{
    let a = chars_of(s);
    let b = chars_of(p);
    matches_at(&a, &b, 0)
}

/// What a registration or update does (see `upsert_profile`).
pub open spec fn upsert_post(
    old_ps: Seq<Profile>,
    old_d: Option<String>,
    input: ProfileInput,
    new_ps: Seq<Profile>,
    new_d: Option<String>,
    r: Result<(), ApiFailure>,
) -> bool {
    match input_error(input) {
        Some(m) => (r matches Err(f) && f.kind == ErrorKind::BadRequest && f.message@ == m) && new_ps == old_ps && new_d == old_d,
        None => {
            let key = trim(input.key@);
            let i = key_pos(old_ps, key);
            if i < old_ps.len() {
                r is Ok && profiles_view(new_ps) == profiles_view(old_ps).update(
                    i as int,
                    updated_profile(profile_view(old_ps[i as int]), input),
                ) && new_d == old_d
            } else if opt_trim(input.api_key) is None {
                (r matches Err(f) && f.kind == ErrorKind::BadRequest && f.message@ == "新建档案必须提供 API Key"@)
                    && new_ps == old_ps && new_d == old_d
            } else {
                r is Ok && profiles_view(new_ps) == profiles_view(old_ps).push(new_profile(input))
                    && opt_view(new_d) == (match old_d {
                        Some(d) => Some(d@),
                        None => Some(key),
                    })
            }
        },
    }
}

/// Saves a profile, on the profiles read and their default key: the
/// input is checked; a profile with the same key is updated, else a new one
/// is added (a key is then required), and the first profile becomes the default.
pub fn upsert_profile(profiles: &mut Vec<Profile>, default_key: &mut Option<String>, input: &ProfileInput) -> (r: Result<(), ApiFailure>)
    ensures
        upsert_post(old(profiles)@, *old(default_key), *input, final(profiles)@, *final(default_key), r),
{
    let key = trimmed(&input.key);
    let base = trimmed(&input.base_url);
    let model = trimmed(&input.model);
    let kv = chars_of(&key);
    let mut ok = kv.len() > 0;
    let mut i: usize = 0;
    while i < kv.len()
        invariant
            i <= kv@.len(),
            kv@ == key@,
            ok == (kv@.len() > 0 && forall|k: int| 0 <= k < i ==> (#[trigger] kv@[k]) != '/' && kv@[k] != '\\' && kv@[k] != ' '),
        decreases kv@.len() - i,
    {
        if kv[i] == '/' || kv[i] == '\\' || kv[i] == ' ' {
            ok = false;
        }
        i += 1;
    }
    if !ok {
        return Err(bad_request("档案 key 非法"));
    }
    if !has_prefix(&base, "http://") && !has_prefix(&base, "https://") {
        return Err(bad_request("端点地址需以 http:// 或 https:// 开头"));
    }
    if is_blank(&input.model) {
        return Err(bad_request("模型名不能为空"));
    }
    let protocol = match opt_trimmed(&input.protocol) {
        Some(p) => p,
        None => "openai".to_owned(),
    };
    if !str_eq(&protocol, "openai") && !str_eq(&protocol, "anthropic") {
        return Err(bad_request("协议仅支持 openai / anthropic"));
    }
    let thinking = opt_trimmed(&input.thinking);
    match &thinking {
        Some(t) => {
            if !str_eq(t, "low") && !str_eq(t, "medium") && !str_eq(t, "high") {
                return Err(bad_request("思考强度仅支持 low / medium / high（或不填不启用）"));
            }
        },
        None => {},
    }
    let new_key = opt_trimmed(&input.api_key);
    let idx = find_profile(profiles, &key);
    if idx < profiles.len() {
        let old_p = &profiles[idx];
        let p = Profile {
            key: old_p.key.clone(),
            base_url: base,
            api_key: match new_key {
                Some(k) => k,
                None => old_p.api_key.clone(),
            },
            model,
            protocol,
            thinking: match thinking {
                Some(t) => Some(t),
                None => clone_opt_string(&old_p.thinking),
            },
        };
        let ghost before = profiles@;
        profiles.set(idx, p);
        assert(profiles_view(profiles@) =~= profiles_view(before).update(idx as int, updated_profile(profile_view(before[idx as int]), *input)));
        Ok(())
    } else {
        match new_key {
            None => Err(bad_request("新建档案必须提供 API Key")),
            Some(k) => {
                let p = Profile { key: key.clone(), base_url: base, api_key: k, model, protocol, thinking };
                let ghost before = profiles@;
                profiles.push(p);
                assert(profiles_view(profiles@) =~= profiles_view(before).push(new_profile(*input)));
                if default_key.is_none() {
                    *default_key = Some(key);
                }
                Ok(())
            },
        }
    }
}

pub open spec fn key_differs(key: Seq<char>) -> spec_fn(ProfileV) -> bool {
    |p: ProfileV| p.0 != key
}

/// What a deletion does (see `delete_profile`).
pub open spec fn delete_post(
    old_ps: Seq<Profile>,
    d: Option<String>,
    key: Seq<char>,
    new_ps: Seq<Profile>,
    r: Result<Option<String>, ApiFailure>,
) -> bool {
    match r {
        Err(f) => !has_key(old_ps, key) && f.kind == ErrorKind::NotFound && f.message@ == "档案不存在"@ && new_ps == old_ps,
        Ok(nd) => has_key(old_ps, key) && profiles_view(new_ps) == profiles_view(old_ps).filter(key_differs(key))
            && opt_view(nd) == default_key_of(new_ps, d),
    }
}

/// Deletes a profile, on the profiles read and their default key:
/// the profiles without `key`, and the default key after it (kept when a
/// remaining profile has it, else the first remaining profile's key).
pub fn delete_profile(profiles: &mut Vec<Profile>, default_key: Option<String>, key: &str) -> (r: Result<Option<String>, ApiFailure>)
    ensures
        delete_post(old(profiles)@, default_key, key@, final(profiles)@, r),
{
    let kv = chars_of(key);
    let mut kept: Vec<Profile> = Vec::new();
    let mut removed = false;
    let ghost all = profiles_view(profiles@);
    let mut i: usize = 0;
    while i < profiles.len()
        invariant
            i <= profiles@.len(),
            kv@ == key@,
            all == profiles_view(profiles@),
            profiles_view(kept@) == all.take(i as int).filter(key_differs(key@)),
            removed == (key_pos(profiles@, key@) < i),
            forall|k: int| 0 <= k < kept@.len() ==> (#[trigger] kept@[k]).key@ != key@,
        decreases profiles@.len() - i,
    {
        let p = &profiles[i];
        let pv = chars_of(&p.key);
        assert(all.take(i + 1).drop_last() =~= all.take(i as int));
        reveal(Seq::filter);
        proof {
            crate::llm::lemma_key_pos_bound(profiles@, key@, i as int);
        }
        if crate::text::chars_eq(&pv, &kv) {
            removed = true;
        } else {
            let ghost prev = kept@;
            kept.push(Profile {
                key: p.key.clone(),
                base_url: p.base_url.clone(),
                api_key: p.api_key.clone(),
                model: p.model.clone(),
                protocol: p.protocol.clone(),
                thinking: clone_opt_string(&p.thinking),
            });
            assert(profiles_view(kept@) =~= profiles_view(prev).push(profile_view(*p)));
        }
        i += 1;
    }
    assert(all.take(all.len() as int) =~= all);
    if !removed {
        return Err(failure(ErrorKind::NotFound, "档案不存在"));
    }
    *profiles = kept;
    let d = match default_key {
        Some(k) => {
            let j = find_profile(profiles, &k);
            if j < profiles.len() {
                Some(k)
            } else if profiles.len() > 0 {
                Some(profiles[0].key.clone())
            } else {
                None
            }
        },
        None => if profiles.len() > 0 {
            Some(profiles[0].key.clone())
        } else {
            None
        },
    };
    Ok(d)
}

// ---- laws ----

/// A default key that fits its profile list: it names a profile, and there
/// is none only when there is no profile.
pub open spec fn default_valid(ps: Seq<Profile>, d: Option<String>) -> bool {
    match d {
        Some(k) => has_key(ps, k@),
        None => ps.len() == 0,
    }
}

proof fn lemma_same_keys(a: Seq<Profile>, b: Seq<Profile>, key: Seq<char>)
    requires
        a.len() == b.len(),
        forall|j: int| 0 <= j < a.len() ==> (#[trigger] a[j]).key@ == b[j].key@,
    ensures
        key_pos(a, key) == key_pos(b, key),
    decreases a.len(),
{
    if a.len() > 0 {
        assert forall|j: int| 0 <= j < a.drop_first().len() implies (#[trigger] a.drop_first()[j]).key@ == b.drop_first()[j].key@ by {
            assert(a.drop_first()[j] == a[j + 1]);
            assert(b.drop_first()[j] == b[j + 1]);
        }
        lemma_same_keys(a.drop_first(), b.drop_first(), key);
    }
}

proof fn lemma_prefix_keys(a: Seq<Profile>, b: Seq<Profile>, key: Seq<char>)
    requires
        a.len() < b.len(),
        forall|j: int| 0 <= j < a.len() ==> (#[trigger] a[j]).key@ == b[j].key@,
        has_key(a, key),
    ensures
        has_key(b, key),
{
    let i = key_pos(a, key) as int;
    crate::llm::lemma_key_pos_bound(a, key, 0);
    assert forall|k: int| 0 <= k < i implies (#[trigger] b[k]).key@ != key by {
        crate::llm::lemma_key_pos_bound(a, key, k);
    }
    crate::llm::lemma_key_pos(b, key, i);
}

/// Law of the profile settings: registering or updating a profile keeps the
/// default key valid (the first profile registered becomes the default).
pub proof fn law_upsert_keeps_default_valid(
    old_ps: Seq<Profile>,
    old_d: Option<String>,
    input: ProfileInput,
    new_ps: Seq<Profile>,
    new_d: Option<String>,
    r: Result<(), ApiFailure>,
)
    requires
        default_valid(old_ps, old_d),
        upsert_post(old_ps, old_d, input, new_ps, new_d, r),
    ensures
        default_valid(new_ps, new_d),
{
    if input_error(input) is None {
        let key = trim(input.key@);
        let i = key_pos(old_ps, key);
        if i < old_ps.len() {
            assert forall|j: int| 0 <= j < new_ps.len() implies (#[trigger] new_ps[j]).key@ == old_ps[j].key@ by {
                assert(profiles_view(new_ps)[j] == profile_view(new_ps[j]));
                assert(profiles_view(old_ps)[j] == profile_view(old_ps[j]));
            }
            assert(profiles_view(new_ps).len() == new_ps.len());
            match new_d {
                Some(k) => lemma_same_keys(new_ps, old_ps, k@),
                None => {},
            }
        } else if opt_trim(input.api_key) is Some {
            assert(profiles_view(new_ps).len() == new_ps.len());
            assert forall|j: int| 0 <= j < old_ps.len() implies (#[trigger] old_ps[j]).key@ == new_ps[j].key@ by {
                assert(profiles_view(new_ps)[j] == profile_view(new_ps[j]));
                assert(profiles_view(old_ps)[j] == profile_view(old_ps[j]));
            }
            match old_d {
                Some(k) => lemma_prefix_keys(old_ps, new_ps, k@),
                None => {
                    assert(profiles_view(new_ps)[0] == profile_view(new_ps[0]));
                    assert(key_pos(new_ps, key) == 0);
                },
            }
        }
    }
}

/// Law of the profile settings: after a deletion the default key is valid:
/// kept when its profile remains, else the first remaining profile's key,
/// none when no profile remains.
pub proof fn law_delete_keeps_default_valid(
    old_ps: Seq<Profile>,
    d: Option<String>,
    key: Seq<char>,
    new_ps: Seq<Profile>,
    r: Result<Option<String>, ApiFailure>,
)
    requires
        delete_post(old_ps, d, key, new_ps, r),
        r is Ok,
    ensures
        match r {
            Ok(nd) => match nd {
                Some(k) => has_key(new_ps, k@),
                None => new_ps.len() == 0,
            },
            Err(_) => true,
        },
        forall|j: int| 0 <= j < new_ps.len() ==> (#[trigger] new_ps[j]).key@ != key,
{
    if new_ps.len() > 0 {
        crate::llm::law_default_key_names_a_profile(new_ps, d);
    }
    assert forall|j: int| 0 <= j < new_ps.len() implies (#[trigger] new_ps[j]).key@ != key by {
        assert(profiles_view(new_ps)[j] == profile_view(new_ps[j]));
        assert(profiles_view(new_ps).len() == new_ps.len());
        profiles_view(old_ps).lemma_filter_pred(key_differs(key), j);
    }
}

/// No two profiles share a key.
pub open spec fn keys_unique(ps: Seq<Profile>) -> bool {
    forall|i: int, j: int| 0 <= i < j < ps.len() ==> (#[trigger] ps[i]).key@ != (#[trigger] ps[j]).key@
}

/// Law of the profile settings: registering a profile under a key already
/// used updates that profile instead of adding a second one, so keys stay
/// unique.
pub proof fn law_upsert_keeps_keys_unique(
    old_ps: Seq<Profile>,
    old_d: Option<String>,
    input: ProfileInput,
    new_ps: Seq<Profile>,
    new_d: Option<String>,
    r: Result<(), ApiFailure>,
)
    requires
        keys_unique(old_ps),
        upsert_post(old_ps, old_d, input, new_ps, new_d, r),
    ensures
        keys_unique(new_ps),
        r is Ok ==> has_key(new_ps, trim(input.key@)),
{
    assert(profiles_view(new_ps).len() == new_ps.len());
    assert(profiles_view(old_ps).len() == old_ps.len());
    if input_error(input) is None {
        let key = trim(input.key@);
        let i = key_pos(old_ps, key);
        crate::llm::lemma_key_pos_bound(old_ps, key, 0);
        if i < old_ps.len() {
            assert forall|j: int| 0 <= j < new_ps.len() implies (#[trigger] new_ps[j]).key@ == old_ps[j].key@ by {
                assert(profiles_view(new_ps)[j] == profile_view(new_ps[j]));
                assert(profiles_view(old_ps)[j] == profile_view(old_ps[j]));
            }
            lemma_same_keys(new_ps, old_ps, key);
        } else if opt_trim(input.api_key) is Some {
            assert forall|j: int| 0 <= j < old_ps.len() implies (#[trigger] new_ps[j]).key@ == old_ps[j].key@ by {
                assert(profiles_view(new_ps)[j] == profile_view(new_ps[j]));
                assert(profiles_view(old_ps)[j] == profile_view(old_ps[j]));
            }
            assert(profiles_view(new_ps)[old_ps.len() as int] == profile_view(new_ps[old_ps.len() as int]));
            assert(new_ps[old_ps.len() as int].key@ == key);
            assert forall|j: int| 0 <= j < old_ps.len() implies (#[trigger] old_ps[j]).key@ != key by {
                crate::llm::lemma_key_pos_bound(old_ps, key, j);
            }
            assert forall|a: int, b: int| 0 <= a < b < new_ps.len() implies (#[trigger] new_ps[a]).key@ != (#[trigger] new_ps[b]).key@ by {
                if b < old_ps.len() {
                    assert(old_ps[a].key@ != old_ps[b].key@);
                } else {
                    assert(old_ps[a].key@ != key);
                }
            }
            assert forall|k: int| 0 <= k < old_ps.len() implies (#[trigger] new_ps[k]).key@ != key by {
                assert(old_ps[k].key@ != key);
            }
            crate::llm::lemma_key_pos(new_ps, key, old_ps.len() as int);
        }
    }
}

/// Law of the profile settings: a saved input is what the profile under its
/// key now holds. Endpoint, model and protocol are the trimmed input; an API
/// key or thinking level that is given replaces the old one, and only a blank
/// or missing one keeps the old value; every other profile is unchanged.
pub proof fn law_upsert_saves_input(
    old_ps: Seq<Profile>,
    old_d: Option<String>,
    input: ProfileInput,
    new_ps: Seq<Profile>,
    new_d: Option<String>,
    r: Result<(), ApiFailure>,
)
    requires
        upsert_post(old_ps, old_d, input, new_ps, new_d, r),
        r is Ok,
    ensures
        ({
            let key = trim(input.key@);
            let i = key_pos(new_ps, key) as int;
            let o = key_pos(old_ps, key) as int;
            &&& i < new_ps.len()
            &&& new_ps[i].key@ == key
            &&& new_ps[i].base_url@ == trim(input.base_url@)
            &&& new_ps[i].model@ == trim(input.model@)
            &&& new_ps[i].protocol@ == input_protocol(input)
            &&& (opt_trim(input.api_key) matches Some(k) ==> new_ps[i].api_key@ == k)
            &&& (opt_trim(input.api_key) is None ==> o < old_ps.len() && new_ps[i].api_key@ == old_ps[o].api_key@)
            &&& (opt_trim(input.thinking) matches Some(t) ==> opt_view(new_ps[i].thinking) == Some(t))
            &&& (opt_trim(input.thinking) is None ==> opt_view(new_ps[i].thinking)
                == (if o < old_ps.len() { opt_view(old_ps[o].thinking) } else { None }))
            &&& forall|j: int| 0 <= j < old_ps.len() && j != i ==> profile_view(#[trigger] new_ps[j]) == profile_view(old_ps[j])
        }),
{
    let key = trim(input.key@);
    let o = key_pos(old_ps, key) as int;
    assert(profiles_view(new_ps).len() == new_ps.len());
    assert(profiles_view(old_ps).len() == old_ps.len());
    crate::llm::lemma_key_pos_bound(old_ps, key, 0);
    assert forall|j: int| 0 <= j < o implies (#[trigger] old_ps[j]).key@ != key by {
        crate::llm::lemma_key_pos_bound(old_ps, key, j);
    }
    assert forall|j: int| 0 <= j < new_ps.len() && j != o implies j < old_ps.len()
        && profile_view(#[trigger] new_ps[j]) == profile_view(old_ps[j]) by {
        assert(profiles_view(new_ps)[j] == profile_view(new_ps[j]));
        assert(profiles_view(old_ps)[j] == profile_view(old_ps[j]));
    }
    assert(profiles_view(new_ps)[o] == profile_view(new_ps[o]));
    if o < old_ps.len() {
        assert(profiles_view(old_ps)[o] == profile_view(old_ps[o]));
    }
    crate::llm::lemma_key_pos(new_ps, key, o);
}

/// The new default key when profile `key` is made the default: the trimmed
/// key when a profile has it, else a bad request.
pub fn set_default(profiles: &[Profile], key: &str) -> (r: Result<String, ApiFailure>)
    ensures
        match r {
            Ok(k) => k@ == trim(key@) && has_key(profiles@, trim(key@)),
            Err(f) => !has_key(profiles@, trim(key@)) && f.kind == ErrorKind::BadRequest
                && f.message@ == "档案不存在"@,
        },
{
    let k = trimmed(key);
    let pos = find_profile(profiles, &k);
    if pos < profiles.len() {
        Ok(k)
    } else {
        Err(bad_request("档案不存在"))
    }
}

} // verus!
