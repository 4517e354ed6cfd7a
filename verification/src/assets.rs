//! The character library: cards stored as markdown with a YAML frontmatter,
//! read tolerantly (files without a frontmatter marked as a character card
//! are ordinary documents), and the naming of new cards.

use vstd::prelude::*;
use serde_yaml::Value;
use crate::excerpt::{excerpt_from_content, excerpt_spec};
use crate::text::{
    chars_of, decimal, extend_all, is_blank, join, line_spans, lines, push_decimal, push_str_chars,
    slice_to_vec, spans_match, str_eq, string_of, trim, trim_span, trimmed,
};

verus! {

/// Characters of the preview of a card.
pub const EXCERPT_CHARS: usize = 160;

#[derive(Debug, Clone, PartialEq)]
pub struct CharacterSummary {
    /// File name without `.md` (single card) or folder name (deep card).
    pub id: String,
    /// The `name` of the frontmatter, else the id.
    pub name: String,
    pub role: Option<String>,
    pub archetype: Vec<String>,
    pub tags: Vec<String>,
    pub source: Option<String>,
    /// `full` for a deep card.
    pub depth: Option<String>,
    pub excerpt: String,
    /// Modification time of the file (epoch seconds).
    pub modified: u64,
}

#[derive(Debug, Clone, PartialEq)]
pub struct CharacterListResponse {
    pub characters: Vec<CharacterSummary>,
}

/// A file of a deep card.
#[derive(Debug, Clone, PartialEq)]
pub struct CardFile {
    /// File name without extension: `soul`, `speech_patterns`, … `limit`.
    pub name: String,
    pub body: String,
}

#[derive(Debug, Clone, PartialEq)]
pub struct CharacterDetail {
    pub id: String,
    pub name: String,
    pub role: Option<String>,
    pub archetype: Vec<String>,
    pub tags: Vec<String>,
    pub source: Option<String>,
    pub depth: Option<String>,
    /// Files of a deep card (empty for a single card).
    pub files: Vec<CardFile>,
    /// The markdown after the frontmatter.
    pub body: String,
    /// The whole file, frontmatter included.
    pub raw: String,
}

#[derive(Debug, Clone, PartialEq)]
pub struct GetCharacterRequest {
    pub id: String,
}

#[derive(Debug, Clone, PartialEq)]
pub struct SaveCharacterRequest {
    pub id: String,
    /// The whole file, frontmatter included.
    pub content: String,
}

#[derive(Debug, Clone, PartialEq)]
pub struct SaveCharacterResponse {
    /// The saved file still reads as a character card.
    pub parsed: bool,
    pub parse_error: Option<String>,
    pub character: Option<CharacterSummary>,
}

#[derive(Debug, Clone, PartialEq)]
pub struct CreateCharacterRequest {
    pub name: String,
}

/// The folder of character cards, below the configuration folder.
pub fn characters_dir(config_dir: &str) -> (r: String)
    ensures
        r@ == config_dir@ + "/db/人物"@,
{
    let mut v = chars_of(config_dir);
    push_str_chars(&mut v, "/db/人物");
    string_of(&v)
}

/// A line that is `---` once trimmed.
pub open spec fn is_fence_line(l: Seq<char>) -> bool {
    trim(l) == seq!['-', '-', '-']
}

/// The first fence line at or after `from`.
pub open spec fn fence_from(ls: Seq<Seq<char>>, from: int) -> Option<int>
    decreases ls.len() - from,
{
    if from < 0 || from >= ls.len() {
        None
    } else if is_fence_line(ls[from]) {
        Some(from)
    } else {
        fence_from(ls, from + 1)
    }
}

pub open spec fn newline() -> Seq<char> {
    seq!['\n']
}

/// The frontmatter split of a card: the lines between a first line
/// `---` and the next line `---` (the YAML), and the lines after it (the
/// body), each joined by newlines; none when the first line is not a fence
/// or no fence closes it.
pub open spec fn split_frontmatter_spec(content: Seq<char>) -> Option<(Seq<char>, Seq<char>)> {
    let ls = lines(content);
    if ls.len() == 0 || !is_fence_line(ls[0]) {
        None
    } else {
        match fence_from(ls, 1) {
            None => None,
            Some(k) => Some((join(ls.subrange(1, k), newline()), join(ls.skip(k + 1), newline()))),
        }
    }
}

fn is_fence_span(v: &[char], a: usize, b: usize) -> (r: bool)
    requires
        a <= b <= v@.len(),
    ensures
        r == is_fence_line(v@.subrange(a as int, b as int)),
{
    let (x, y) = trim_span(v, a, b);
    let t = slice_to_vec(v, x, y);
    let f = vec!['-', '-', '-'];
    assert(f@ =~= seq!['-', '-', '-']);
    crate::text::chars_eq(&t, &f)
}

/// Joins the lines `spans[lo..hi]` of `v` with newlines.
fn join_spans(v: &[char], spans: &[(usize, usize)], lo: usize, hi: usize, ls: Ghost<Seq<Seq<char>>>) -> (r: Vec<char>)
    requires
        lo <= hi <= spans@.len(),
        spans_match(v@, spans@, ls@),
    ensures
        r@ == join(ls@.subrange(lo as int, hi as int), newline()),
{
    let mut out: Vec<char> = Vec::new();
    let mut k = lo;
    while k < hi
        invariant
            lo <= k <= hi <= spans@.len(),
            spans_match(v@, spans@, ls@),
            out@ == join(ls@.subrange(lo as int, k as int), newline()),
        decreases hi - k,
    {
        let (a, b) = spans[k];
        assert(spans@[k as int].0 <= spans@[k as int].1 <= v@.len());
        let ghost prev = ls@.subrange(lo as int, k as int);
        assert(ls@.subrange(lo as int, k + 1).drop_last() =~= prev);
        assert(ls@.subrange(lo as int, k + 1).last() == ls@[k as int]);
        if k > lo {
            out.push('\n');
        }
        let line = slice_to_vec(v, a, b);
        extend_all(&mut out, &line);
        proof {
            if k > lo {
                assert(out@ =~= join(prev, newline()) + newline() + ls@[k as int]);
            } else {
                assert(ls@.subrange(lo as int, k + 1) =~= seq![ls@[k as int]]);
                assert(out@ =~= ls@[k as int]);
            }
        }
        k += 1;
    }
    out
}

/// The YAML of the frontmatter and the body of a card.
pub fn split_frontmatter(content: &str) -> (r: Option<(String, String)>)
    ensures
        match r {
            Some((fm, body)) => split_frontmatter_spec(content@) == Some((fm@, body@)),
            None => split_frontmatter_spec(content@) is None,
        },
{
    let v = chars_of(content);
    let spans = line_spans(&v);
    let ghost ls = lines(v@);
    if spans.len() == 0 {
        return None;
    }
    let (a0, b0) = spans[0];
    assert(spans@[0].0 <= spans@[0].1 <= v@.len());
    assert(v@.subrange(a0 as int, b0 as int) == ls[0]);
    if !is_fence_span(&v, a0, b0) {
        return None;
    }
    let mut k: usize = 1;
    while k < spans.len()
        invariant
            1 <= k <= spans@.len(),
            v@ == content@,
            ls == lines(v@),
            ls.len() > 0 && is_fence_line(ls[0]),
            spans_match(v@, spans@, ls),
            fence_from(ls, 1) == fence_from(ls, k as int),
        decreases spans@.len() - k,
    {
        let (a, b) = spans[k];
        assert(spans@[k as int].0 <= spans@[k as int].1 <= v@.len());
        assert(v@.subrange(a as int, b as int) == ls[k as int]);
        if is_fence_span(&v, a, b) {
            let fm = join_spans(&v, &spans, 1, k, Ghost(ls));
            let body = join_spans(&v, &spans, k + 1, spans.len(), Ghost(ls));
            assert(ls.subrange(k + 1, ls.len() as int) =~= ls.skip(k + 1));
            return Some((string_of(&fm), string_of(&body)));
        }
        k += 1;
    }
    None
}

/// The string value of `key` in the YAML document `doc`: none when `doc`
/// is not YAML, `Some(None)` when the document has no such key or its value
/// is not a string.
pub uninterp spec fn yaml_string_member(doc: Seq<char>, key: Seq<char>) -> Option<Option<Seq<char>>>;

/// The value of `key` in the YAML document `doc`, by kind: none when `doc`
/// is not YAML.
pub uninterp spec fn yaml_field(doc: Seq<char>, key: Seq<char>) -> Option<YamlFieldV>;

/// Parses `doc` with `serde_yaml::from_str` into a `serde_yaml::Value` and
/// reads the string value of `key` (`Value::get`, `Value::as_str`). The
/// result is named, not described: what serde_yaml accepts is left unsaid.
#[verifier::external_body]
fn yaml_str_member(doc: &str, key: &str) -> (r: Option<Option<String>>)
    ensures
        crate::llm::opt_opt_view(r) == yaml_string_member(doc@, key@),
{
    match serde_yaml::from_str::<serde_yaml::Value>(doc) {
        Ok(v) => Some(v.get(key).and_then(|x| x.as_str()).map(|x| x.to_string())),
        Err(_) => None,
    }
}

pub open spec fn items_view(v: Seq<Option<String>>) -> Seq<Option<Seq<char>>> {
    v.map_values(|o: Option<String>| match o {
        Some(s) => Some(s@),
        None => None,
    })
}

/// The value of a key of a YAML mapping, one variant per kind of YAML value;
/// a sequence keeps the string of each element (`None` for an element that
/// is not a string).
#[derive(Debug, Clone, PartialEq)]
pub enum YamlField {
    /// The document has no such key.
    Absent,
    Null,
    Bool,
    Number,
    Str(String),
    Sequence(Vec<Option<String>>),
    Mapping,
    Tagged,
}

pub enum YamlFieldV {
    Absent,
    Null,
    Bool,
    Number,
    Str(Seq<char>),
    Sequence(Seq<Option<Seq<char>>>),
    Mapping,
    Tagged,
}

impl View for YamlField {
    type V = YamlFieldV;

    open spec fn view(&self) -> YamlFieldV {
        match self {
            YamlField::Absent => YamlFieldV::Absent,
            YamlField::Null => YamlFieldV::Null,
            YamlField::Bool => YamlFieldV::Bool,
            YamlField::Number => YamlFieldV::Number,
            YamlField::Str(s) => YamlFieldV::Str(s@),
            YamlField::Sequence(v) => YamlFieldV::Sequence(items_view(v@)),
            YamlField::Mapping => YamlFieldV::Mapping,
            YamlField::Tagged => YamlFieldV::Tagged,
        }
    }
}

pub open spec fn field_view(r: Option<YamlField>) -> Option<YamlFieldV> {
    match r {
        Some(f) => Some(f@),
        None => None,
    }
}

/// Parses `doc` with `serde_yaml::from_str` into a `serde_yaml::Value`,
/// takes the value of `key` with `Value::get`, and tells its variant apart,
/// reading each element of a sequence with `Value::as_str`. The result is
/// named, not described: what serde_yaml accepts is left unsaid.
#[verifier::external_body]
fn yaml_field_of(doc: &str, key: &str) -> (r: Option<YamlField>)
    ensures
        field_view(r) == yaml_field(doc@, key@),
{
    let v = serde_yaml::from_str::<Value>(doc).ok()?;
    Some(match v.get(key) {
        None => YamlField::Absent,
        Some(Value::Null) => YamlField::Null,
        Some(Value::Bool(_)) => YamlField::Bool,
        Some(Value::Number(_)) => YamlField::Number,
        Some(Value::String(s)) => YamlField::Str(s.clone()),
        Some(Value::Sequence(items)) => YamlField::Sequence(items.iter().map(|i| i.as_str().map(|x| x.to_owned())).collect()),
        Some(Value::Mapping(_)) => YamlField::Mapping,
        Some(Value::Tagged(_)) => YamlField::Tagged,
    })
}

/// The string items (non-strings dropped).
pub open spec fn string_items(items: Seq<Option<Seq<char>>>) -> Seq<Seq<char>>
    decreases items.len(),
{
    if items.len() == 0 {
        seq![]
    } else {
        let rest = string_items(items.drop_last());
        match items.last() {
            Some(s) => rest.push(s),
            None => rest,
        }
    }
}

/// A field read as text: trimmed, absent when blank or not a string.
pub open spec fn text_field(m: Option<Option<Seq<char>>>) -> Option<Seq<char>> {
    match m {
        Some(Some(s)) => if trim(s).len() > 0 { Some(trim(s)) } else { None },
        _ => None,
    }
}

/// The items of a field that may be one string or a list: a string is one
/// item, a sequence its string elements, any other value no item.
pub open spec fn field_items(f: YamlFieldV) -> Seq<Seq<char>> {
    match f {
        YamlFieldV::Str(s) => seq![s],
        YamlFieldV::Sequence(items) => string_items(items),
        _ => seq![],
    }
}

/// The items of a field read from a document (none when it is not YAML).
pub open spec fn list_field(m: Option<YamlFieldV>) -> Seq<Seq<char>> {
    match m {
        Some(f) => field_items(f),
        None => seq![],
    }
}

pub open spec fn opt_view(o: Option<String>) -> Option<Seq<char>> {
    match o {
        Some(s) => Some(s@),
        None => None,
    }
}

/// The frontmatter marks the document as a character card.
pub open spec fn is_character_card(fm: Seq<char>) -> bool {
    yaml_string_member(fm, "shiro_asset"@) == Some(Some("character"@))
}

/// The card read from a frontmatter and body.
pub open spec fn card_matches(fm: Seq<char>, body: Seq<char>, id: Seq<char>, c: CharacterSummary) -> bool {
    &&& c.id@ == id
    &&& c.name@ == (match text_field(yaml_string_member(fm, "name"@)) {
        Some(n) => n,
        None => id,
    })
    &&& opt_view(c.role) == text_field(yaml_string_member(fm, "role"@))
    &&& crate::evidence::strings_view(c.archetype@) == list_field(yaml_field(fm, "archetype"@))
    &&& crate::evidence::strings_view(c.tags@) == list_field(yaml_field(fm, "tags"@))
    &&& opt_view(c.source) == text_field(yaml_string_member(fm, "source"@))
    &&& opt_view(c.depth) == text_field(yaml_string_member(fm, "depth"@))
    &&& c.excerpt@ == excerpt_spec(body, EXCERPT_CHARS as nat, true)
    &&& c.modified == 0
}

fn text_member(fm: &str, key: &str) -> (r: Option<String>)
    ensures
        opt_view(r) == text_field(yaml_string_member(fm@, key@)),
{
    match yaml_str_member(fm, key) {
        Some(Some(s)) => if is_blank(&s) {
            None
        } else {
            Some(trimmed(&s))
        },
        _ => None,
    }
}

/// The items of a field that may be one string or a list of strings:
/// a string is one item, a sequence gives its string elements in order
/// (other elements dropped), any other value gives none.
pub fn field_strings(f: &YamlField) -> (r: Vec<String>)
    ensures
        crate::evidence::strings_view(r@) == field_items(f@),
{
    match f {
        YamlField::Str(s) => {
            let r = vec![s.clone()];
            assert(crate::evidence::strings_view(r@) =~= seq![s@]);
            r
        },
        YamlField::Sequence(items) => {
            let mut out: Vec<String> = Vec::new();
            let mut i: usize = 0;
            let ghost iv = items_view(items@);
            while i < items.len()
                invariant
                    i <= items@.len(),
                    iv == items_view(items@),
                    crate::evidence::strings_view(out@) == string_items(iv.take(i as int)),
                decreases items@.len() - i,
            {
                assert(iv.take(i + 1).drop_last() =~= iv.take(i as int));
                match &items[i] {
                    Some(s) => {
                        let ghost prev = out@;
                        out.push(s.clone());
                        assert(crate::evidence::strings_view(out@) =~= crate::evidence::strings_view(prev).push(s@));
                    },
                    None => {},
                }
                i += 1;
            }
            assert(iv.take(iv.len() as int) =~= iv);
            out
        },
        _ => {
            let r: Vec<String> = Vec::new();
            assert(crate::evidence::strings_view(r@) =~= Seq::<Seq<char>>::empty());
            r
        },
    }
}

fn list_member(fm: &str, key: &str) -> (r: Vec<String>)
    ensures
        crate::evidence::strings_view(r@) == list_field(yaml_field(fm@, key@)),
{
    match yaml_field_of(fm, key) {
        None => Vec::new(),
        Some(f) => field_strings(&f),
    }
}

/// The card of a frontmatter and body,
/// none when the frontmatter is not YAML marked `shiro_asset: character`.
pub fn parse_character(fm: &str, body: &str, id: &str) -> (r: Option<CharacterSummary>)
    ensures
        match r {
            Some(c) => is_character_card(fm@) && card_matches(fm@, body@, id@, c),
            None => !is_character_card(fm@),
        },
{
    let kind = yaml_str_member(fm, "shiro_asset");
    let is_card = match &kind {
        Some(Some(k)) => str_eq(k, "character"),
        _ => false,
    };
    if !is_card {
        return None;
    }
    let name = match text_member(fm, "name") {
        Some(n) => n,
        None => id.to_owned(),
    };
    Some(CharacterSummary {
        id: id.to_owned(),
        name,
        role: text_member(fm, "role"),
        archetype: list_member(fm, "archetype"),
        tags: list_member(fm, "tags"),
        source: text_member(fm, "source"),
        depth: text_member(fm, "depth"),
        excerpt: excerpt_from_content(body, EXCERPT_CHARS, true),
        modified: 0,
    })
}

/// What a card file is shown as once saved: the card when it still reads
/// as one, else a note that it left the list.
pub fn save_feedback(card: Option<CharacterSummary>) -> (r: SaveCharacterResponse)
    ensures
        r.parsed == card is Some,
        r.character == card,
        card is Some ==> r.parse_error is None,
        card is None ==> (r.parse_error matches Some(m)
            && m@ == "frontmatter 缺失、YAML 损坏或未标记 shiro_asset: character——保存成功，但该卡不会出现在角色列表中"@),
{
    match card {
        Some(c) => SaveCharacterResponse { parsed: true, parse_error: None, character: Some(c) },
        None => SaveCharacterResponse {
            parsed: false,
            parse_error: Some("frontmatter 缺失、YAML 损坏或未标记 shiro_asset: character——保存成功，但该卡不会出现在角色列表中".to_owned()),
            character: None,
        },
    }
}

/// What a character of a name becomes in an id: ASCII letters and digits
/// (lowercased), anything else a separator.
pub open spec fn slug_char_map(c: char) -> Seq<char> {
    if ('a' <= c <= 'z') || ('0' <= c <= '9') {
        seq![c]
    } else if 'A' <= c <= 'Z' {
        seq![((c as u32) + 32) as char]
    } else if c == '\u{212A}' {
        seq!['k']
    } else if c == '\u{130}' {
        seq!['i', '-']
    } else {
        seq!['-']
    }
}

pub open spec fn slug_chars(name: Seq<char>) -> Seq<char>
    decreases name.len(),
{
    if name.len() == 0 {
        seq![]
    } else {
        slug_chars(name.drop_last()) + slug_char_map(name.last())
    }
}

/// The non-empty runs between `-` joined by single `-`.
pub open spec fn collapse_dash(s: Seq<char>) -> Seq<char>
    decreases s.len(),
{
    if s.len() == 0 {
        seq![]
    } else {
        let rest = collapse_dash(s.drop_last());
        if s.last() == '-' {
            rest
        } else if rest.len() > 0 && s.len() >= 2 && s[s.len() - 2] == '-' {
            rest.push('-').push(s.last())
        } else {
            rest.push(s.last())
        }
    }
}

/// The id of a new card named `name`, created at `now`.
pub open spec fn slug_spec(name: Seq<char>, now: u64) -> Seq<char> {
    let s = collapse_dash(slug_chars(name));
    if s.len() == 0 {
        "character-"@ + decimal(now as nat)
    } else {
        s
    }
}

fn slug_map_exec(c: char, out: &mut Vec<char>)
    ensures
        final(out)@ == old(out)@ + slug_char_map(c),
{
    if ('a' <= c && c <= 'z') || ('0' <= c && c <= '9') {
        out.push(c);
        assert(final(out)@ =~= old(out)@ + slug_char_map(c));
    } else if 'A' <= c && c <= 'Z' {
        let x: u8 = ((c as u32) + 32) as u8;
        let l = x as char;
        assert(l == ((c as u32) + 32) as char);
        out.push(l);
        assert(final(out)@ =~= old(out)@ + slug_char_map(c));
    } else if c == '\u{212A}' {
        out.push('k');
        assert(final(out)@ =~= old(out)@ + slug_char_map(c));
    } else if c == '\u{130}' {
        out.push('i');
        out.push('-');
        assert(final(out)@ =~= old(out)@ + slug_char_map(c));
    } else {
        out.push('-');
        assert(final(out)@ =~= old(out)@ + slug_char_map(c));
    }
}

/// The id of a new card: the name lowercased, every character but
/// ASCII letters and digits turned into `-`, runs of `-` collapsed and
/// trimmed; `character-<now>` when nothing is left.
pub fn slug_for(name: &str, now: u64) -> (r: String)
    ensures
        r@ == slug_spec(name@, now),
{
    let v = chars_of(name);
    let mut m: Vec<char> = Vec::new();
    let mut i: usize = 0;
    while i < v.len()
        invariant
            i <= v@.len(),
            m@ == slug_chars(v@.take(i as int)),
        decreases v@.len() - i,
    {
        assert(v@.take(i + 1).drop_last() =~= v@.take(i as int));
        slug_map_exec(v[i], &mut m);
        i += 1;
    }
    assert(v@.take(v@.len() as int) =~= v@);
    let mut out: Vec<char> = Vec::new();
    let mut j: usize = 0;
    while j < m.len()
        invariant
            j <= m@.len(),
            out@ == collapse_dash(m@.take(j as int)),
        decreases m@.len() - j,
    {
        assert(m@.take(j + 1).drop_last() =~= m@.take(j as int));
        let c = m[j];
        if c == '-' {
        } else if out.len() > 0 && j >= 1 && m[j - 1] == '-' {
            out.push('-');
            out.push(c);
        } else {
            out.push(c);
        }
        j += 1;
    }
    assert(m@.take(m@.len() as int) =~= m@);
    if out.len() == 0 {
        let mut r: Vec<char> = Vec::new();
        push_str_chars(&mut r, "character-");
        push_decimal(&mut r, now);
        string_of(&r)
    } else {
        string_of(&out)
    }
}

/// The id tried after `base` is taken: `base-n`.
pub fn numbered_id(base: &str, n: u64) -> (r: String)
    ensures
        r@ == base@ + seq!['-'] + decimal(n as nat),
{
    let mut v = chars_of(base);
    v.push('-');
    push_decimal(&mut v, n);
    string_of(&v)
}

/// The body of a new card after its frontmatter: the headings of the
/// transferable part.
pub const SKELETON_BODY: &'static str = "\n## 可迁移\n\n### 性格核心\n\n\n\n### 动机与目标模式\n\n\n\n### 说话风格\n\n\n\n### 弧线类型\n\n";

/// The file of a new card, given its serialised frontmatter:
/// the frontmatter between fences, then the skeleton body.
pub fn skeleton_content(frontmatter_yaml: &str) -> (r: String)
    ensures
        r@ == "---\n"@ + frontmatter_yaml@ + "---\n"@ + SKELETON_BODY@,
{
    let mut v: Vec<char> = Vec::new();
    push_str_chars(&mut v, "---\n");
    push_str_chars(&mut v, frontmatter_yaml);
    push_str_chars(&mut v, "---\n");
    push_str_chars(&mut v, SKELETON_BODY);
    string_of(&v)
}

// ---- laws ----

pub open spec fn slug_allowed(c: char) -> bool {
    ('a' <= c <= 'z') || ('0' <= c <= '9') || c == '-'
}

proof fn lemma_slug_chars_allowed(name: Seq<char>)
    ensures
        forall|k: int| 0 <= k < slug_chars(name).len() ==> slug_allowed(#[trigger] slug_chars(name)[k]),
    decreases name.len(),
{
    if name.len() > 0 {
        lemma_slug_chars_allowed(name.drop_last());
        let a = slug_chars(name.drop_last());
        let b = slug_char_map(name.last());
        assert forall|k: int| 0 <= k < b.len() implies slug_allowed(#[trigger] b[k]) by {
            let c = name.last();
            if 'A' <= c <= 'Z' {
                assert(b[k] == ((c as u32) + 32) as char);
            }
        }
        assert forall|k: int| 0 <= k < (a + b).len() implies slug_allowed(#[trigger] (a + b)[k]) by {
            if k < a.len() {
                assert((a + b)[k] == a[k]);
            } else {
                assert((a + b)[k] == b[k - a.len()]);
            }
        }
    }
}

proof fn lemma_collapse_allowed(s: Seq<char>)
    requires
        forall|k: int| 0 <= k < s.len() ==> slug_allowed(#[trigger] s[k]),
    ensures
        forall|k: int| 0 <= k < collapse_dash(s).len() ==> slug_allowed(#[trigger] collapse_dash(s)[k]),
    decreases s.len(),
{
    if s.len() > 0 {
        assert forall|k: int| 0 <= k < s.drop_last().len() implies slug_allowed(#[trigger] s.drop_last()[k]) by {
            assert(s.drop_last()[k] == s[k]);
        }
        lemma_collapse_allowed(s.drop_last());
        assert(slug_allowed(s.last()));
        let rest = collapse_dash(s.drop_last());
        let out = collapse_dash(s);
        assert forall|k: int| 0 <= k < out.len() implies slug_allowed(#[trigger] out[k]) by {
            if k < rest.len() {
                assert(out[k] == rest[k]);
            }
        }
    }
}

proof fn lemma_decimal_digits(n: nat)
    ensures
        forall|k: int| 0 <= k < decimal(n).len() ==> '0' <= #[trigger] decimal(n)[k] <= '9',
    decreases n,
{
    if n >= 10 {
        lemma_decimal_digits(n / 10);
        assert forall|k: int| 0 <= k < decimal(n).len() implies '0' <= #[trigger] decimal(n)[k] <= '9' by {
            if k < decimal(n / 10).len() {
                assert(decimal(n)[k] == decimal(n / 10)[k]);
            }
        }
    }
}

/// Law of card ids: the id made from any name is a valid asset id (not
/// empty, not starting with `.`, without path separators).
pub proof fn law_slug_is_valid_id(name: Seq<char>, now: u64)
    ensures
        crate::paths::id_ok(slug_spec(name, now)),
{
    lemma_slug_chars_allowed(name);
    lemma_collapse_allowed(slug_chars(name));
    let s = collapse_dash(slug_chars(name));
    if s.len() == 0 {
        reveal_strlit("character-");
        lemma_decimal_digits(now as nat);
        let t = "character-"@ + decimal(now as nat);
        assert forall|i: int| 0 <= i < t.len() implies !crate::paths::is_sep(#[trigger] t[i]) by {
            if i < 10 {
                assert(t[i] == "character-"@[i]);
            } else {
                assert(t[i] == decimal(now as nat)[i - 10]);
            }
        }
        assert(t[0] == 'c');
    } else {
        assert forall|i: int| 0 <= i < s.len() implies !crate::paths::is_sep(#[trigger] s[i]) by {
            assert(slug_allowed(s[i]));
        }
        assert(slug_allowed(s[0]));
    }
}

/// The card id of an entry of the character folder: a folder is a deep card
/// named by the folder, a `.md` file a single card named without the
/// extension; hidden entries and other files are not cards.
pub open spec fn card_id_spec(name: Seq<char>, is_dir: bool) -> Option<Seq<char>> {
    if name.len() > 0 && name[0] == '.' {
        None
    } else if is_dir {
        Some(name)
    } else if name.len() >= 3 && name.skip(name.len() - 3) == ".md"@ {
        Some(name.take(name.len() - 3))
    } else {
        None
    }
}

/// The card id of an entry of the character folder, if it is a card.
pub fn card_id_of(name: &str, is_dir: bool) -> (r: Option<String>)
    ensures
        match r {
            Some(id) => card_id_spec(name@, is_dir) == Some(id@),
            None => card_id_spec(name@, is_dir) is None,
        },
{
    let c = chars_of(name);
    if c.len() > 0 && c[0] == '.' {
        return None;
    }
    if is_dir {
        return Some(string_of(&c));
    }
    let n = c.len();
    if n >= 3 && c[n - 3] == '.' && c[n - 2] == 'm' && c[n - 1] == 'd' {
        proof {
            reveal_strlit(".md");
            assert(c@.skip(n - 3) =~= ".md"@);
        }
        let id = slice_to_vec(&c, 0, n - 3);
        assert(id@ =~= c@.take(n - 3));
        return Some(string_of(&id));
    }
    proof {
        reveal_strlit(".md");
        if n >= 3 {
            assert(c@.skip(n - 3).len() == 3);
            assert(c@.skip(n - 3)[0] == c@[n - 3]);
            assert(c@.skip(n - 3)[1] == c@[n - 2]);
            assert(c@.skip(n - 3)[2] == c@[n - 1]);
        }
    }
    None
}

} // verus!
