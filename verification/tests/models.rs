use shiro_daemon::error::ErrorKind;
use shiro_daemon::llm::Profile;
use shiro_daemon::models::{delete_profile, list_response, set_default, summary, upsert_profile, ProfileInput};

fn input(key: &str, base: &str, model: &str, api_key: Option<&str>) -> ProfileInput {
    ProfileInput {
        key: key.into(),
        base_url: base.into(),
        model: model.into(),
        protocol: None,
        thinking: None,
        api_key: api_key.map(String::from),
    }
}

#[test]
fn upsert_creates_then_updates() {
    let mut ps: Vec<Profile> = vec![];
    let mut d = None;
    upsert_profile(&mut ps, &mut d, &input(" deepseek ", " https://api.deepseek.com/v1 ", "chat", Some(" sk-a "))).unwrap();
    assert_eq!(ps.len(), 1);
    assert_eq!(ps[0].key, "deepseek");
    assert_eq!(ps[0].api_key, "sk-a");
    assert_eq!(ps[0].protocol, "openai");
    assert_eq!(d.as_deref(), Some("deepseek"));
    let mut upd = input("deepseek", "https://x/v1", "reasoner", None);
    upd.thinking = Some("high".into());
    upsert_profile(&mut ps, &mut d, &upd).unwrap();
    assert_eq!(ps.len(), 1);
    assert_eq!(ps[0].model, "reasoner");
    assert_eq!(ps[0].api_key, "sk-a", "未提供新 key 保留旧 key");
    assert_eq!(ps[0].thinking.as_deref(), Some("high"));
    upsert_profile(&mut ps, &mut d, &input("kimi", "https://k", "k3", Some("sk-b"))).unwrap();
    assert_eq!(ps.len(), 2);
    assert_eq!(d.as_deref(), Some("deepseek"), "已有默认项不变");
}

#[test]
fn upsert_rejections() {
    let mut ps: Vec<Profile> = vec![];
    let mut d = None;
    let e = upsert_profile(&mut ps, &mut d, &input("a b", "https://x", "m", Some("k"))).unwrap_err();
    assert_eq!(e.kind, ErrorKind::BadRequest);
    assert_eq!(e.message, "档案 key 非法");
    let e = upsert_profile(&mut ps, &mut d, &input("a", "ftp://x", "m", Some("k"))).unwrap_err();
    assert_eq!(e.message, "端点地址需以 http:// 或 https:// 开头");
    let e = upsert_profile(&mut ps, &mut d, &input("a", "http://x", " ", Some("k"))).unwrap_err();
    assert_eq!(e.message, "模型名不能为空");
    let mut p = input("a", "http://x", "m", Some("k"));
    p.protocol = Some("grpc".into());
    assert_eq!(upsert_profile(&mut ps, &mut d, &p).unwrap_err().message, "协议仅支持 openai / anthropic");
    let mut p = input("a", "http://x", "m", Some("k"));
    p.thinking = Some("max".into());
    assert!(upsert_profile(&mut ps, &mut d, &p).unwrap_err().message.starts_with("思考强度仅支持"));
    let e = upsert_profile(&mut ps, &mut d, &input("a", "http://x", "m", Some("  "))).unwrap_err();
    assert_eq!(e.message, "新建档案必须提供 API Key");
    assert!(ps.is_empty());
    assert_eq!(d, None);
}

#[test]
fn delete_moves_default() {
    let mut ps: Vec<Profile> = vec![];
    let mut d = None;
    upsert_profile(&mut ps, &mut d, &input("a", "http://x", "m", Some("k1"))).unwrap();
    upsert_profile(&mut ps, &mut d, &input("b", "http://y", "m", Some("k2"))).unwrap();
    let nd = delete_profile(&mut ps, d.clone(), "a").unwrap();
    assert_eq!(nd.as_deref(), Some("b"));
    assert_eq!(ps.len(), 1);
    let e = delete_profile(&mut ps, nd.clone(), "a").unwrap_err();
    assert_eq!(e.kind, ErrorKind::NotFound);
    assert_eq!(e.message, "档案不存在");
    assert_eq!(delete_profile(&mut ps, nd, "b").unwrap(), None);
}

#[test]
fn summaries_mask_keys() {
    let p = Profile {
        key: "a".into(),
        base_url: "u".into(),
        api_key: "sk-abcdef123456".into(),
        model: "m".into(),
        protocol: "openai".into(),
        thinking: None,
    };
    let s = summary(&p);
    assert!(s.api_key_set);
    assert_eq!(s.api_key_preview.as_deref(), Some("sk-…3456"));
    let r = list_response(&[p], Some("a".into()));
    assert_eq!(r.profiles.len(), 1);
    assert_eq!(r.default_key.as_deref(), Some("a"));
}

#[test]
fn list_response_keeps_every_field() {
    let mut p = profile("deepseek");
    p.api_key = "sk-abcdef123456".into();
    p.model = "deepseek-v4-flash".into();
    p.thinking = Some("high".into());
    let r = list_response(&[p], Some("deepseek".into()));
    let s = &r.profiles[0];
    assert_eq!(s.key, "deepseek");
    assert_eq!(s.base_url, "https://api.deepseek.com/v1");
    assert_eq!(s.model, "deepseek-v4-flash");
    assert_eq!(s.protocol, "openai");
    assert_eq!(s.thinking.as_deref(), Some("high"));
    assert!(s.api_key_set);
    assert_eq!(s.api_key_preview.as_deref(), Some("sk-…3456"));
}

fn profile(key: &str) -> Profile {
    Profile {
        key: key.into(),
        base_url: "https://api.deepseek.com/v1".into(),
        api_key: "sk-0123456789".into(),
        model: "deepseek-chat".into(),
        protocol: "openai".into(),
        thinking: None,
    }
}

#[test]
fn set_default_takes_the_trimmed_key_of_a_profile() {
    let ps = vec![profile("deepseek"), profile("kimi")];
    assert_eq!(set_default(&ps, " kimi ").unwrap(), "kimi");
    let err = set_default(&ps, "openai").unwrap_err();
    assert_eq!(err.kind, ErrorKind::BadRequest);
    assert_eq!(err.message, "档案不存在");
    assert!(set_default(&[], "kimi").is_err());
}
