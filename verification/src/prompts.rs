//! Prompts of the deconstruction nodes: the segment notes and the seven card
//! files. Every prompt shares the same rules in its system message (claims
//! bound to evidence, quotes copied verbatim, gaps left as gaps, citation
//! units readable by the program).

use vstd::prelude::*;
use crate::evidence::{
    event_view, mention_view, relation_view, strings_view, ActionLine, Dialogue, EventV, EvidencePack,
    Mention, MentionV, NoteEvent, PairV, RelationV, RelationshipSignal, SceneSummary, SegmentNote,
    action_view, dialogue_view,
};
use crate::text::{
    chars_of, decimal, join, join_pieces, push_decimal, push_str_chars, seqs_view, slice_to_vec,
    string_of, trim, is_blank, str_eq,
};

verus! {

/// Citation unit the model writes when it cannot see the scene structure;
/// the program replaces it with the segment label.
pub const SEG_PLACEHOLDER: &'static str = "SEG";

pub const NOTES_SYSTEM: &'static str = "你是剧本结构研究员。阅读给定片段，输出结构化 JSON 笔记。只记录片段内出现的事实，不推测片段之外的内容。台词一律原文照录，禁止概括改写。";

pub open spec fn nl() -> Seq<char> {
    "\n"@
}

/// The system message of the card prompts.
pub open spec fn system_spec(work: Seq<char>, character: Seq<char>) -> Seq<char> {
    COMMON_SYSTEM@ + "\n\n当前作品：《"@ + work + "》；研究对象："@ + character
}

/// The system message of a card generation call.
pub fn system(work: &str, character: &str) -> (r: String)
    ensures
        r@ == system_spec(work@, character@),
{
    let mut v: Vec<char> = Vec::new();
    push_str_chars(&mut v, COMMON_SYSTEM);
    push_str_chars(&mut v, "\n\n当前作品：《");
    push_str_chars(&mut v, work);
    push_str_chars(&mut v, "》；研究对象：");
    push_str_chars(&mut v, character);
    string_of(&v)
}

/// The system and user messages of the notes of one segment.
pub fn notes_prompt(seg_label: &str, content: &str) -> (r: (String, String))
    ensures
        r.0@ == NOTES_SYSTEM@,
        r.1@ == notes_text(seg_label@, content@),
{
    (NOTES_SYSTEM.to_owned(), notes_fill(seg_label, content))
}

/// A scene field after the backfill: the segment label when blank or the placeholder.
pub open spec fn fix_scene(s: Seq<char>, label: Seq<char>) -> Seq<char> {
    if trim(s).len() == 0 || trim(s) == SEG_PLACEHOLDER@ {
        label
    } else {
        s
    }
}

fn fixed_scene(s: &String, label: &str) -> (r: String)
    ensures
        r@ == fix_scene(s@, label@),
{
    let t = crate::text::trimmed(s);
    if is_blank(s) || str_eq(&t, SEG_PLACEHOLDER) {
        label.to_owned()
    } else {
        s.clone()
    }
}

/// Fills in a note's segment: the note takes the segment label,
/// and every blank or placeholder scene becomes the label.
pub fn backfill_segment(note: &mut SegmentNote, seg_label: &str)
    ensures
        final(note).segment@ == seg_label@,
        final(note).scene_summaries@.len() == old(note).scene_summaries@.len(),
        forall|i: int| 0 <= i < old(note).scene_summaries@.len() ==> (#[trigger] final(note).scene_summaries@[i]).scene@
            == fix_scene(old(note).scene_summaries@[i].scene@, seg_label@)
            && final(note).scene_summaries@[i].summary == old(note).scene_summaries@[i].summary,
        final(note).events@.len() == old(note).events@.len(),
        forall|i: int| 0 <= i < old(note).events@.len() ==> (#[trigger] final(note).events@[i]).scene@
            == fix_scene(old(note).events@[i].scene@, seg_label@)
            && final(note).events@[i].what == old(note).events@[i].what
            && final(note).events@[i].who == old(note).events@[i].who
            && final(note).events@[i].emotion == old(note).events@[i].emotion,
        final(note).relationship_signals@.len() == old(note).relationship_signals@.len(),
        forall|i: int| 0 <= i < old(note).relationship_signals@.len() ==> (#[trigger] final(note).relationship_signals@[i]).scene@
            == fix_scene(old(note).relationship_signals@[i].scene@, seg_label@)
            && final(note).relationship_signals@[i].a == old(note).relationship_signals@[i].a
            && final(note).relationship_signals@[i].b == old(note).relationship_signals@[i].b
            && final(note).relationship_signals@[i].signal == old(note).relationship_signals@[i].signal,
        final(note).mentions@.len() == old(note).mentions@.len(),
        forall|i: int| 0 <= i < old(note).mentions@.len() ==> (#[trigger] final(note).mentions@[i]).scene@
            == fix_scene(old(note).mentions@[i].scene@, seg_label@)
            && final(note).mentions@[i].about == old(note).mentions@[i].about
            && final(note).mentions@[i].by == old(note).mentions@[i].by
            && final(note).mentions@[i].content == old(note).mentions@[i].content,
        final(note).dialogues@.len() == old(note).dialogues@.len(),
        forall|i: int| 0 <= i < old(note).dialogues@.len() ==> (#[trigger] final(note).dialogues@[i]).scene@
            == fix_scene(old(note).dialogues@[i].scene@, seg_label@)
            && final(note).dialogues@[i].character == old(note).dialogues@[i].character
            && final(note).dialogues@[i].line == old(note).dialogues@[i].line,
        final(note).characters_on_stage == old(note).characters_on_stage,
{
    note.segment = seg_label.to_owned();
    let mut ss: Vec<SceneSummary> = Vec::new();
    std::mem::swap(&mut ss, &mut note.scene_summaries);
    fix_summaries(&mut ss, seg_label);
    note.scene_summaries = ss;
    let mut es: Vec<NoteEvent> = Vec::new();
    std::mem::swap(&mut es, &mut note.events);
    fix_events(&mut es, seg_label);
    note.events = es;
    let mut rs: Vec<RelationshipSignal> = Vec::new();
    std::mem::swap(&mut rs, &mut note.relationship_signals);
    fix_relations(&mut rs, seg_label);
    note.relationship_signals = rs;
    let mut ms: Vec<Mention> = Vec::new();
    std::mem::swap(&mut ms, &mut note.mentions);
    fix_mentions(&mut ms, seg_label);
    note.mentions = ms;
    let mut ds: Vec<crate::evidence::NoteDialogue> = Vec::new();
    std::mem::swap(&mut ds, &mut note.dialogues);
    fix_dialogues(&mut ds, seg_label);
    note.dialogues = ds;
}

fn fix_summaries(v: &mut Vec<SceneSummary>, label: &str)
    ensures
        final(v)@.len() == old(v)@.len(),
        forall|k: int| 0 <= k < old(v)@.len() ==> (#[trigger] final(v)@[k]).scene@ == fix_scene(old(v)@[k].scene@, label@)
            && final(v)@[k].summary == old(v)@[k].summary,
{
    let mut i: usize = 0;
    while i < v.len()
        invariant
            i <= v@.len(),
            v@.len() == old(v)@.len(),
            forall|k: int| 0 <= k < i ==> (#[trigger] v@[k]).scene@ == fix_scene(old(v)@[k].scene@, label@)
                && v@[k].summary == old(v)@[k].summary,
            forall|k: int| i <= k < v@.len() ==> #[trigger] v@[k] == old(v)@[k],
        decreases v@.len() - i,
    {
        let x = SceneSummary { scene: fixed_scene(&v[i].scene, label), summary: v[i].summary.clone() };
        v.set(i, x);
        i += 1;
    }
}

fn fix_events(v: &mut Vec<NoteEvent>, label: &str)
    ensures
        final(v)@.len() == old(v)@.len(),
        forall|k: int| 0 <= k < old(v)@.len() ==> (#[trigger] final(v)@[k]).scene@ == fix_scene(old(v)@[k].scene@, label@)
            && final(v)@[k].what == old(v)@[k].what && final(v)@[k].who == old(v)@[k].who
            && final(v)@[k].emotion == old(v)@[k].emotion,
{
    let mut i: usize = 0;
    while i < v.len()
        invariant
            i <= v@.len(),
            v@.len() == old(v)@.len(),
            forall|k: int| 0 <= k < i ==> (#[trigger] v@[k]).scene@ == fix_scene(old(v)@[k].scene@, label@)
                && v@[k].what == old(v)@[k].what && v@[k].who == old(v)@[k].who && v@[k].emotion == old(v)@[k].emotion,
            forall|k: int| i <= k < v@.len() ==> #[trigger] v@[k] == old(v)@[k],
        decreases v@.len() - i,
    {
        let mut e = v.remove(i);
        e.scene = fixed_scene(&e.scene, label);
        v.insert(i, e);
        i += 1;
    }
}

fn fix_relations(v: &mut Vec<RelationshipSignal>, label: &str)
    ensures
        final(v)@.len() == old(v)@.len(),
        forall|k: int| 0 <= k < old(v)@.len() ==> (#[trigger] final(v)@[k]).scene@ == fix_scene(old(v)@[k].scene@, label@)
            && final(v)@[k].a == old(v)@[k].a && final(v)@[k].b == old(v)@[k].b
            && final(v)@[k].signal == old(v)@[k].signal,
{
    let mut i: usize = 0;
    while i < v.len()
        invariant
            i <= v@.len(),
            v@.len() == old(v)@.len(),
            forall|k: int| 0 <= k < i ==> (#[trigger] v@[k]).scene@ == fix_scene(old(v)@[k].scene@, label@)
                && v@[k].a == old(v)@[k].a && v@[k].b == old(v)@[k].b && v@[k].signal == old(v)@[k].signal,
            forall|k: int| i <= k < v@.len() ==> #[trigger] v@[k] == old(v)@[k],
        decreases v@.len() - i,
    {
        let x = RelationshipSignal { a: v[i].a.clone(), b: v[i].b.clone(), signal: v[i].signal.clone(), scene: fixed_scene(&v[i].scene, label) };
        v.set(i, x);
        i += 1;
    }
}

fn fix_mentions(v: &mut Vec<Mention>, label: &str)
    ensures
        final(v)@.len() == old(v)@.len(),
        forall|k: int| 0 <= k < old(v)@.len() ==> (#[trigger] final(v)@[k]).scene@ == fix_scene(old(v)@[k].scene@, label@)
            && final(v)@[k].about == old(v)@[k].about && final(v)@[k].by == old(v)@[k].by
            && final(v)@[k].content == old(v)@[k].content,
{
    let mut i: usize = 0;
    while i < v.len()
        invariant
            i <= v@.len(),
            v@.len() == old(v)@.len(),
            forall|k: int| 0 <= k < i ==> (#[trigger] v@[k]).scene@ == fix_scene(old(v)@[k].scene@, label@)
                && v@[k].about == old(v)@[k].about && v@[k].by == old(v)@[k].by && v@[k].content == old(v)@[k].content,
            forall|k: int| i <= k < v@.len() ==> #[trigger] v@[k] == old(v)@[k],
        decreases v@.len() - i,
    {
        let x = Mention { about: v[i].about.clone(), by: v[i].by.clone(), content: v[i].content.clone(), scene: fixed_scene(&v[i].scene, label) };
        v.set(i, x);
        i += 1;
    }
}

fn fix_dialogues(v: &mut Vec<crate::evidence::NoteDialogue>, label: &str)
    ensures
        final(v)@.len() == old(v)@.len(),
        forall|k: int| 0 <= k < old(v)@.len() ==> (#[trigger] final(v)@[k]).scene@ == fix_scene(old(v)@[k].scene@, label@)
            && final(v)@[k].character == old(v)@[k].character && final(v)@[k].line == old(v)@[k].line,
{
    let mut i: usize = 0;
    while i < v.len()
        invariant
            i <= v@.len(),
            v@.len() == old(v)@.len(),
            forall|k: int| 0 <= k < i ==> (#[trigger] v@[k]).scene@ == fix_scene(old(v)@[k].scene@, label@)
                && v@[k].character == old(v)@[k].character && v@[k].line == old(v)@[k].line,
            forall|k: int| i <= k < v@.len() ==> #[trigger] v@[k] == old(v)@[k],
        decreases v@.len() - i,
    {
        let x = crate::evidence::NoteDialogue { character: v[i].character.clone(), line: v[i].line.clone(), scene: fixed_scene(&v[i].scene, label) };
        v.set(i, x);
        i += 1;
    }
}

// ---- material blocks ----

pub open spec fn min_len(n: nat, limit: nat) -> nat {
    if n < limit { n } else { limit }
}

pub open spec fn bracketed(scene: Seq<char>, rest: Seq<char>) -> Seq<char> {
    "["@ + scene + "] "@ + rest
}

pub open spec fn dialogue_lines(ds: Seq<PairV>) -> Seq<Seq<char>> {
    ds.map_values(|d: PairV| bracketed(d.0, d.1))
}

/// The dialogue material: the first `limit` lines as `[scene] line`, and a
/// note when the lines were sampled.
pub open spec fn dialogue_block_spec(ds: Seq<PairV>, sampled: bool, limit: nat) -> Seq<char> {
    join(dialogue_lines(ds.take(min_len(ds.len(), limit) as int)), nl())
        + (if sampled { "（台词已等距采样，全量 "@ + decimal(ds.len()) + " 条）"@ } else { Seq::<char>::empty() })
}

pub open spec fn pack_dialogues(pack: EvidencePack) -> Seq<PairV> {
    pack.dialogues@.map_values(|d: Dialogue| dialogue_view(d))
}

pub open spec fn pack_mentions(pack: EvidencePack) -> Seq<MentionV> {
    pack.mentions@.map_values(|m: Mention| mention_view(m))
}

pub open spec fn pack_events(pack: EvidencePack) -> Seq<EventV> {
    pack.events@.map_values(|e: NoteEvent| event_view(e))
}

pub open spec fn pack_relations(pack: EvidencePack) -> Seq<RelationV> {
    pack.relationship_signals@.map_values(|r: RelationshipSignal| relation_view(r))
}

pub open spec fn pack_actions(pack: EvidencePack) -> Seq<PairV> {
    pack.actions@.map_values(|a: ActionLine| action_view(a))
}

/// The dialogue lines of a pack, as prompt text.
pub fn dialogue_block(pack: &EvidencePack, limit: usize) -> (r: String)
    ensures
        r@ == dialogue_block_spec(pack_dialogues(*pack), pack.sampled, limit as nat),
{
    let ghost ds = pack_dialogues(*pack);
    let n = if pack.dialogues.len() < limit { pack.dialogues.len() } else { limit };
    let mut items: Vec<Vec<char>> = Vec::new();
    let mut i: usize = 0;
    while i < n
        invariant
            i <= n <= pack.dialogues@.len(),
            ds == pack_dialogues(*pack),
            seqs_view(items@) == dialogue_lines(ds.take(i as int)),
        decreases n - i,
    {
        let d = &pack.dialogues[i];
        let mut v: Vec<char> = Vec::new();
        push_str_chars(&mut v, "[");
        push_str_chars(&mut v, &d.scene);
        push_str_chars(&mut v, "] ");
        push_str_chars(&mut v, &d.line);
        assert(v@ =~= bracketed(ds[i as int].0, ds[i as int].1));
        let ghost prev = items@;
        items.push(v);
        assert(seqs_view(items@) =~= seqs_view(prev).push(bracketed(ds[i as int].0, ds[i as int].1)));
        assert(dialogue_lines(ds.take(i + 1)) =~= dialogue_lines(ds.take(i as int)).push(bracketed(ds[i as int].0, ds[i as int].1)));
        i += 1;
    }
    let mut out = join_pieces(&items, "\n");
    if pack.sampled {
        push_str_chars(&mut out, "（台词已等距采样，全量 ");
        push_decimal(&mut out, pack.dialogues.len() as u64);
        push_str_chars(&mut out, " 条）");
    }
    string_of(&out)
}

pub open spec fn mention_line(m: MentionV) -> Seq<char> {
    bracketed(m.3, m.1 + "（"@ + m.0 + "）："@ + m.2)
}

/// The mentions of a pack, as prompt text.
pub open spec fn mention_block_spec(ms: Seq<MentionV>) -> Seq<char> {
    if ms.len() == 0 {
        "（无他人评价材料）"@
    } else {
        join(ms.map_values(|m: MentionV| mention_line(m)), nl())
    }
}

pub fn mention_block(pack: &EvidencePack) -> (r: String)
    ensures
        r@ == mention_block_spec(pack_mentions(*pack)),
{
    if pack.mentions.len() == 0 {
        return "（无他人评价材料）".to_owned();
    }
    let ghost ms = pack_mentions(*pack);
    let mut items: Vec<Vec<char>> = Vec::new();
    let mut i: usize = 0;
    while i < pack.mentions.len()
        invariant
            i <= pack.mentions@.len(),
            ms == pack_mentions(*pack),
            seqs_view(items@) == ms.take(i as int).map_values(|m: MentionV| mention_line(m)),
        decreases pack.mentions@.len() - i,
    {
        let m = &pack.mentions[i];
        let mut v: Vec<char> = Vec::new();
        push_str_chars(&mut v, "[");
        push_str_chars(&mut v, &m.scene);
        push_str_chars(&mut v, "] ");
        push_str_chars(&mut v, &m.by);
        push_str_chars(&mut v, "（");
        push_str_chars(&mut v, &m.about);
        push_str_chars(&mut v, "）：");
        push_str_chars(&mut v, &m.content);
        assert(v@ =~= mention_line(ms[i as int]));
        let ghost prev = items@;
        items.push(v);
        assert(seqs_view(items@) =~= seqs_view(prev).push(mention_line(ms[i as int])));
        assert(ms.take(i + 1).map_values(|m: MentionV| mention_line(m)) =~= ms.take(i as int).map_values(|m: MentionV| mention_line(m)).push(mention_line(ms[i as int])));
        i += 1;
    }
    assert(ms.take(ms.len() as int) =~= ms);
    string_of(&join_pieces(&items, "\n"))
}

pub open spec fn event_line(e: EventV) -> Seq<char> {
    let who = join(e.2, "、"@);
    match e.3 {
        Some(em) => if trim(em).len() > 0 {
            bracketed(e.0, e.1 + "（"@ + who + "，情绪："@ + em + "）"@)
        } else {
            bracketed(e.0, e.1 + "（"@ + who + "）"@)
        },
        None => bracketed(e.0, e.1 + "（"@ + who + "）"@),
    }
}

/// The events of a pack, as prompt text.
pub open spec fn event_block_spec(es: Seq<EventV>) -> Seq<char> {
    if es.len() == 0 {
        "（无事件记录）"@
    } else {
        join(es.map_values(|e: EventV| event_line(e)), nl())
    }
}

fn strings_chars(v: &Vec<String>) -> (r: Vec<Vec<char>>)
    ensures
        seqs_view(r@) == strings_view(v@),
{
    let mut out: Vec<Vec<char>> = Vec::new();
    let mut i: usize = 0;
    while i < v.len()
        invariant
            i <= v@.len(),
            seqs_view(out@) == strings_view(v@).take(i as int),
        decreases v@.len() - i,
    {
        let ghost prev = out@;
        out.push(chars_of(&v[i]));
        assert(seqs_view(out@) =~= seqs_view(prev).push(v@[i as int]@));
        assert(strings_view(v@).take(i + 1) =~= strings_view(v@).take(i as int).push(v@[i as int]@));
        i += 1;
    }
    assert(strings_view(v@).take(v@.len() as int) =~= strings_view(v@));
    out
}

pub fn event_block(pack: &EvidencePack) -> (r: String)
    ensures
        r@ == event_block_spec(pack_events(*pack)),
{
    if pack.events.len() == 0 {
        return "（无事件记录）".to_owned();
    }
    let ghost es = pack_events(*pack);
    let mut items: Vec<Vec<char>> = Vec::new();
    let mut i: usize = 0;
    while i < pack.events.len()
        invariant
            i <= pack.events@.len(),
            es == pack_events(*pack),
            seqs_view(items@) == es.take(i as int).map_values(|e: EventV| event_line(e)),
        decreases pack.events@.len() - i,
    {
        let e = &pack.events[i];
        let who = join_pieces(&strings_chars(&e.who), "、");
        let mut v: Vec<char> = Vec::new();
        push_str_chars(&mut v, "[");
        push_str_chars(&mut v, &e.scene);
        push_str_chars(&mut v, "] ");
        push_str_chars(&mut v, &e.what);
        push_str_chars(&mut v, "（");
        crate::text::extend_all(&mut v, &who);
        match &e.emotion {
            Some(em) => {
                if !is_blank(em) {
                    push_str_chars(&mut v, "，情绪：");
                    push_str_chars(&mut v, em);
                }
            },
            None => {},
        }
        push_str_chars(&mut v, "）");
        assert(v@ =~= event_line(es[i as int]));
        let ghost prev = items@;
        items.push(v);
        assert(seqs_view(items@) =~= seqs_view(prev).push(event_line(es[i as int])));
        assert(es.take(i + 1).map_values(|e: EventV| event_line(e)) =~= es.take(i as int).map_values(|e: EventV| event_line(e)).push(event_line(es[i as int])));
        i += 1;
    }
    assert(es.take(es.len() as int) =~= es);
    string_of(&join_pieces(&items, "\n"))
}

pub open spec fn relation_line(r: RelationV) -> Seq<char> {
    bracketed(r.3, r.0 + " ↔ "@ + r.1 + "："@ + r.2)
}

/// The relationship signals of a pack, as prompt text.
pub open spec fn relation_block_spec(rs: Seq<RelationV>) -> Seq<char> {
    if rs.len() == 0 {
        "（无关系信号）"@
    } else {
        join(rs.map_values(|r: RelationV| relation_line(r)), nl())
    }
}

pub fn relation_block(pack: &EvidencePack) -> (r: String)
    ensures
        r@ == relation_block_spec(pack_relations(*pack)),
{
    if pack.relationship_signals.len() == 0 {
        return "（无关系信号）".to_owned();
    }
    let ghost rs = pack_relations(*pack);
    let mut items: Vec<Vec<char>> = Vec::new();
    let mut i: usize = 0;
    while i < pack.relationship_signals.len()
        invariant
            i <= pack.relationship_signals@.len(),
            rs == pack_relations(*pack),
            seqs_view(items@) == rs.take(i as int).map_values(|r: RelationV| relation_line(r)),
        decreases pack.relationship_signals@.len() - i,
    {
        let x = &pack.relationship_signals[i];
        let mut v: Vec<char> = Vec::new();
        push_str_chars(&mut v, "[");
        push_str_chars(&mut v, &x.scene);
        push_str_chars(&mut v, "] ");
        push_str_chars(&mut v, &x.a);
        push_str_chars(&mut v, " ↔ ");
        push_str_chars(&mut v, &x.b);
        push_str_chars(&mut v, "：");
        push_str_chars(&mut v, &x.signal);
        assert(v@ =~= relation_line(rs[i as int]));
        let ghost prev = items@;
        items.push(v);
        assert(seqs_view(items@) =~= seqs_view(prev).push(relation_line(rs[i as int])));
        assert(rs.take(i + 1).map_values(|r: RelationV| relation_line(r)) =~= rs.take(i as int).map_values(|r: RelationV| relation_line(r)).push(relation_line(rs[i as int])));
        i += 1;
    }
    assert(rs.take(rs.len() as int) =~= rs);
    string_of(&join_pieces(&items, "\n"))
}

/// The action lines of a pack, as prompt text.
pub open spec fn action_block_spec(acts: Seq<PairV>) -> Seq<char> {
    if acts.len() == 0 {
        "（无动作/舞台指示摘录）"@
    } else {
        join(dialogue_lines(acts), nl())
    }
}

pub fn action_block(pack: &EvidencePack) -> (r: String)
    ensures
        r@ == action_block_spec(pack_actions(*pack)),
{
    if pack.actions.len() == 0 {
        return "（无动作/舞台指示摘录）".to_owned();
    }
    let ghost acts = pack_actions(*pack);
    let mut items: Vec<Vec<char>> = Vec::new();
    let mut i: usize = 0;
    while i < pack.actions.len()
        invariant
            i <= pack.actions@.len(),
            acts == pack_actions(*pack),
            seqs_view(items@) == dialogue_lines(acts.take(i as int)),
        decreases pack.actions@.len() - i,
    {
        let a = &pack.actions[i];
        let mut v: Vec<char> = Vec::new();
        push_str_chars(&mut v, "[");
        push_str_chars(&mut v, &a.scene);
        push_str_chars(&mut v, "] ");
        push_str_chars(&mut v, &a.text);
        assert(v@ =~= bracketed(acts[i as int].0, acts[i as int].1));
        let ghost prev = items@;
        items.push(v);
        assert(seqs_view(items@) =~= seqs_view(prev).push(bracketed(acts[i as int].0, acts[i as int].1)));
        assert(dialogue_lines(acts.take(i + 1)) =~= dialogue_lines(acts.take(i as int)).push(bracketed(acts[i as int].0, acts[i as int].1)));
        i += 1;
    }
    assert(acts.take(acts.len() as int) =~= acts);
    string_of(&join_pieces(&items, "\n"))
}

pub open spec fn summary_line(s: SceneSummary) -> Seq<char> {
    s.scene@ + "："@ + s.summary@
}

/// The synopsis part of one note.
pub open spec fn note_synopsis(n: SegmentNote) -> Seq<char> {
    "【"@ + n.segment@ + "】\n"@ + join(n.scene_summaries@.map_values(|s: SceneSummary| summary_line(s)), nl())
}

/// Synopsis parts of the notes that have scene summaries, in order.
pub open spec fn synopsis_parts(ns: Seq<SegmentNote>) -> Seq<Seq<char>>
    decreases ns.len(),
{
    if ns.len() == 0 {
        seq![]
    } else {
        let rest = synopsis_parts(ns.drop_last());
        if ns.last().scene_summaries@.len() == 0 {
            rest
        } else {
            rest.push(note_synopsis(ns.last()))
        }
    }
}

/// The synopsis of the segment notes, as prompt text.
pub open spec fn synopsis_block_spec(ns: Seq<SegmentNote>) -> Seq<char> {
    let parts = synopsis_parts(ns);
    if parts.len() == 0 {
        "（无场次摘要）"@
    } else {
        join(parts, "\n\n"@)
    }
}

pub fn synopsis_block(notes: &[SegmentNote]) -> (r: String)
    ensures
        r@ == synopsis_block_spec(notes@),
{
    let mut parts: Vec<Vec<char>> = Vec::new();
    let mut i: usize = 0;
    while i < notes.len()
        invariant
            i <= notes@.len(),
            seqs_view(parts@) == synopsis_parts(notes@.take(i as int)),
        decreases notes@.len() - i,
    {
        let n = &notes[i];
        assert(notes@.take(i + 1).drop_last() =~= notes@.take(i as int));
        if n.scene_summaries.len() > 0 {
            let ghost ss = n.scene_summaries@;
            let mut lines: Vec<Vec<char>> = Vec::new();
            let mut k: usize = 0;
            while k < n.scene_summaries.len()
                invariant
                    k <= n.scene_summaries@.len(),
                    ss == n.scene_summaries@,
                    seqs_view(lines@) == ss.take(k as int).map_values(|s: SceneSummary| summary_line(s)),
                decreases n.scene_summaries@.len() - k,
            {
                let s = &n.scene_summaries[k];
                let mut v: Vec<char> = Vec::new();
                push_str_chars(&mut v, &s.scene);
                push_str_chars(&mut v, "：");
                push_str_chars(&mut v, &s.summary);
                assert(v@ =~= summary_line(ss[k as int]));
                let ghost prev = lines@;
                lines.push(v);
                assert(seqs_view(lines@) =~= seqs_view(prev).push(summary_line(ss[k as int])));
                assert(ss.take(k + 1).map_values(|s: SceneSummary| summary_line(s)) =~= ss.take(k as int).map_values(|s: SceneSummary| summary_line(s)).push(summary_line(ss[k as int])));
                k += 1;
            }
            assert(ss.take(ss.len() as int) =~= ss);
            let mut p: Vec<char> = Vec::new();
            push_str_chars(&mut p, "【");
            push_str_chars(&mut p, &n.segment);
            push_str_chars(&mut p, "】\n");
            let body = join_pieces(&lines, "\n");
            crate::text::extend_all(&mut p, &body);
            assert(p@ =~= note_synopsis(*n));
            let ghost prev = parts@;
            parts.push(p);
            assert(seqs_view(parts@) =~= seqs_view(prev).push(note_synopsis(*n)));
        }
        i += 1;
    }
    assert(notes@.take(notes@.len() as int) =~= notes@);
    if parts.len() == 0 {
        "（无场次摘要）".to_owned()
    } else {
        string_of(&join_pieces(&parts, "\n\n"))
    }
}

/// The first `max` characters and a note when longer.
pub open spec fn truncate_spec(s: Seq<char>, max: nat) -> Seq<char> {
    if s.len() <= max {
        s
    } else {
        s.take(max as int) + "\n…（已截断）"@
    }
}

pub fn truncate_chars(s: &str, max: usize) -> (r: String)
    ensures
        r@ == truncate_spec(s@, max as nat),
{
    let v = chars_of(s);
    if v.len() <= max {
        s.to_owned()
    } else {
        let mut t = slice_to_vec(&v, 0, max);
        push_str_chars(&mut t, "\n…（已截断）");
        string_of(&t)
    }
}

pub open spec fn file_pairs(files: Seq<(String, String)>) -> Seq<(Seq<char>, Seq<char>)> {
    files.map_values(|f: (String, String)| (f.0@, f.1@))
}

pub open spec fn conclusion_part(f: (Seq<char>, Seq<char>)) -> Seq<char> {
    "## 来自 "@ + f.0 + nl() + truncate_spec(f.1, 2500) + nl()
}

pub open spec fn bundle_part(f: (Seq<char>, Seq<char>)) -> Seq<char> {
    "───── "@ + f.0 + " ─────\n"@ + f.1 + nl()
}

fn conclusions_of(files: &[(String, String)]) -> (r: Vec<char>)
    ensures
        r@ == join(file_pairs(files@).map_values(|f: (Seq<char>, Seq<char>)| conclusion_part(f)), nl()),
{
    let ghost fp = file_pairs(files@);
    let mut items: Vec<Vec<char>> = Vec::new();
    let mut i: usize = 0;
    while i < files.len()
        invariant
            i <= files@.len(),
            fp == file_pairs(files@),
            seqs_view(items@) == fp.take(i as int).map_values(|f: (Seq<char>, Seq<char>)| conclusion_part(f)),
        decreases files@.len() - i,
    {
        let (name, body) = &files[i];
        let mut v: Vec<char> = Vec::new();
        push_str_chars(&mut v, "## 来自 ");
        push_str_chars(&mut v, name);
        push_str_chars(&mut v, "\n");
        let t = truncate_chars(body, 2500);
        push_str_chars(&mut v, &t);
        push_str_chars(&mut v, "\n");
        assert(v@ =~= conclusion_part(fp[i as int]));
        let ghost prev = items@;
        items.push(v);
        assert(seqs_view(items@) =~= seqs_view(prev).push(conclusion_part(fp[i as int])));
        assert(fp.take(i + 1).map_values(|f: (Seq<char>, Seq<char>)| conclusion_part(f)) =~= fp.take(i as int).map_values(|f: (Seq<char>, Seq<char>)| conclusion_part(f)).push(conclusion_part(fp[i as int])));
        i += 1;
    }
    assert(fp.take(fp.len() as int) =~= fp);
    join_pieces(&items, "\n")
}

fn bundle_of(files: &[(String, String)]) -> (r: Vec<char>)
    ensures
        r@ == join(file_pairs(files@).map_values(|f: (Seq<char>, Seq<char>)| bundle_part(f)), nl()),
{
    let ghost fp = file_pairs(files@);
    let mut items: Vec<Vec<char>> = Vec::new();
    let mut i: usize = 0;
    while i < files.len()
        invariant
            i <= files@.len(),
            fp == file_pairs(files@),
            seqs_view(items@) == fp.take(i as int).map_values(|f: (Seq<char>, Seq<char>)| bundle_part(f)),
        decreases files@.len() - i,
    {
        let (name, body) = &files[i];
        let mut v: Vec<char> = Vec::new();
        push_str_chars(&mut v, "───── ");
        push_str_chars(&mut v, name);
        push_str_chars(&mut v, " ─────\n");
        push_str_chars(&mut v, body);
        push_str_chars(&mut v, "\n");
        assert(v@ =~= bundle_part(fp[i as int]));
        let ghost prev = items@;
        items.push(v);
        assert(seqs_view(items@) =~= seqs_view(prev).push(bundle_part(fp[i as int])));
        assert(fp.take(i + 1).map_values(|f: (Seq<char>, Seq<char>)| bundle_part(f)) =~= fp.take(i as int).map_values(|f: (Seq<char>, Seq<char>)| bundle_part(f)).push(bundle_part(fp[i as int])));
        i += 1;
    }
    assert(fp.take(fp.len() as int) =~= fp);
    join_pieces(&items, "\n")
}

/// The messages that generate `soul.md` (generation order 1).
pub fn soul_prompt(work: &str, character: &str, pack: &EvidencePack, notes: &[SegmentNote]) -> (r: (String, String))
    ensures
        r.0@ == system_spec(work@, character@),
        r.1@ == soul_text(synopsis_block_spec(notes@), character@, event_block_spec(pack_events(*pack)),
            mention_block_spec(pack_mentions(*pack))),
{
    let synopsis = synopsis_block(notes);
    let events = event_block(pack);
    let mentions = mention_block(pack);
    (system(work, character), soul_fill(&synopsis, character, &events, &mentions))
}

/// The messages that generate `speech_patterns.md` (order 2): at most 800 lines of dialogue.
pub fn speech_prompt(work: &str, character: &str, pack: &EvidencePack, soul: &str) -> (r: (String, String))
    ensures
        r.0@ == system_spec(work@, character@),
        r.1@ == speech_text(character@, dialogue_block_spec(pack_dialogues(*pack), pack.sampled, 800), soul@),
{
    let dialogues = dialogue_block(pack, 800);
    (system(work, character), speech_fill(character, &dialogues, soul))
}

/// The messages that generate `behavior_guide.md` (order 3).
pub fn behavior_prompt(work: &str, character: &str, pack: &EvidencePack, soul: &str) -> (r: (String, String))
    ensures
        r.0@ == system_spec(work@, character@),
        r.1@ == behavior_text(character@, action_block_spec(pack_actions(*pack)), event_block_spec(pack_events(*pack)), soul@),
{
    let actions = action_block(pack);
    let events = event_block(pack);
    (system(work, character), behavior_fill(character, &actions, &events, soul))
}

/// The messages that generate `relationship_dynamics.md` (order 4).
pub fn relationship_prompt(work: &str, character: &str, pack: &EvidencePack, soul: &str) -> (r: (String, String))
    ensures
        r.0@ == system_spec(work@, character@),
        r.1@ == relationship_text(character@, relation_block_spec(pack_relations(*pack)), mention_block_spec(pack_mentions(*pack)), soul@),
{
    let relations = relation_block(pack);
    let mentions = mention_block(pack);
    (system(work, character), relationship_fill(character, &relations, &mentions, soul))
}

/// The messages that generate `key_life_events.md` (order 5).
pub fn events_prompt(work: &str, character: &str, pack: &EvidencePack, notes: &[SegmentNote], soul: &str) -> (r: (String, String))
    ensures
        r.0@ == system_spec(work@, character@),
        r.1@ == events_text(synopsis_block_spec(notes@), character@, event_block_spec(pack_events(*pack)), soul@),
{
    let synopsis = synopsis_block(notes);
    let events = event_block(pack);
    (system(work, character), events_fill(&synopsis, character, &events, soul))
}

/// The messages that generate `limit.md` (order 6): the first five files, each cut at 2500 characters.
pub fn limit_prompt(work: &str, character: &str, files: &[(String, String)]) -> (r: (String, String))
    ensures
        r.0@ == system_spec(work@, character@),
        r.1@ == limit_text(character@, join(file_pairs(files@).map_values(|f: (Seq<char>, Seq<char>)| conclusion_part(f)), nl())),
{
    let conclusions = string_of(&conclusions_of(files));
    (system(work, character), limit_fill(character, &conclusions))
}

/// The messages that generate `index.md` (order 7): all six files in full.
pub fn index_prompt(work: &str, character: &str, files: &[(String, String)]) -> (r: (String, String))
    ensures
        r.0@ == system_spec(work@, character@),
        r.1@ == index_text(character@, join(file_pairs(files@).map_values(|f: (Seq<char>, Seq<char>)| bundle_part(f)), nl())),
{
    let bundle = string_of(&bundle_of(files));
    (system(work, character), index_fill(character, &bundle))
}

pub const REGEN_NOTE: &'static str = "\n\n【必须修复】以下引文未能在原文中定位（可能被改写或凭印象补写），请逐字核对材料修正；确实无法定位的整条删除，不要保留改写版：\n";

pub open spec fn failed_line(q: Seq<char>) -> Seq<char> {
    "- 「"@ + q + "」"@
}

/// A prompt asking to repair quotes: the first prompt and the
/// list of quotes to repair.
pub open spec fn regen_spec(base: Seq<char>, failed: Seq<Seq<char>>) -> Seq<char> {
    base + REGEN_NOTE@ + join(failed.map_values(|q: Seq<char>| failed_line(q)), nl())
}

pub fn regen_with_failed_quotes(base_user: &str, failed: &[String]) -> (r: String)
    ensures
        r@ == regen_spec(base_user@, strings_view(failed@)),
{
    let ghost fs = strings_view(failed@);
    let mut items: Vec<Vec<char>> = Vec::new();
    let mut i: usize = 0;
    while i < failed.len()
        invariant
            i <= failed@.len(),
            fs == strings_view(failed@),
            seqs_view(items@) == fs.take(i as int).map_values(|q: Seq<char>| failed_line(q)),
        decreases failed@.len() - i,
    {
        let mut v: Vec<char> = Vec::new();
        push_str_chars(&mut v, "- 「");
        push_str_chars(&mut v, &failed[i]);
        push_str_chars(&mut v, "」");
        assert(v@ =~= failed_line(fs[i as int]));
        let ghost prev = items@;
        items.push(v);
        assert(seqs_view(items@) =~= seqs_view(prev).push(failed_line(fs[i as int])));
        assert(fs.take(i + 1).map_values(|q: Seq<char>| failed_line(q)) =~= fs.take(i as int).map_values(|q: Seq<char>| failed_line(q)).push(failed_line(fs[i as int])));
        i += 1;
    }
    assert(fs.take(fs.len() as int) =~= fs);
    let mut out = chars_of(base_user);
    push_str_chars(&mut out, REGEN_NOTE);
    let list = join_pieces(&items, "\n");
    crate::text::extend_all(&mut out, &list);
    string_of(&out)
}

pub const COMMON_SYSTEM: &'static str = "你是剧本角色研究员，为外部剧本建立角色写作档案（还原型：保留原作专名与引文）。\n\n铁律：\n1. 论断必须钉在证据上：每个重要性格/行为论断至少绑定一条引文或引用单元；材料无法支撑的性格词不许写\n2. 引文格式固定为「……」（引用单元），机器要回查原文，因此引文必须逐字照录，禁止改写、缩写、凭印象补写\n3. 引用单元：优先用场次/章节标题原文；看不出场次结构时填 SEG\n4. 原作未交代的留白，如实标注「留白」，不得推测填充\n5. 只依据给定材料，不引入材料之外的常识或同人设定";
pub const NOTES_0: &'static str = "【剧本片段：";
pub const NOTES_1: &'static str = "】\n";
pub const NOTES_2: &'static str = "\n\n输出 JSON（只输出 JSON，不要任何其他文字）：\n{\n  \"scene_summaries\": [{\"scene\": \"场次标题（无场次结构填 SEG）\", \"summary\": \"本单元发生了什么，1-2 句\"}],\n  \"characters_on_stage\": [\"本片段出现的角色，按原文写法\"],\n  \"events\": [{\"scene\": \"…\", \"what\": \"发生了什么动作/转折\", \"who\": [\"参与者\"], \"emotion\": \"参与者显性情绪，无则省略该字段\"}],\n  \"relationship_signals\": [{\"a\": \"角色A\", \"b\": \"角色B\", \"signal\": \"两人间的态度/权力/情感信号\", \"scene\": \"…\"}],\n  \"mentions\": [{\"about\": \"被谈论的角色\", \"by\": \"谈论者\", \"content\": \"谈论内容（直接引语原文照录）\", \"scene\": \"…\"}],\n  \"dialogues\": [{\"character\": \"说话者\", \"line\": \"台词原文\", \"scene\": \"…\"}]\n}\n\n要求：\n- dialogues 收录本片段全部台词（若片段超长，保留与主要角色相关的台词，每条原文照录）\n- events 记录动作与转折，不只是对话内容\n- mentions 是幕后角色的关键证据：角色不在场时被如何评价\n- 没有内容的字段给空数组";
pub const SOUL_0: &'static str = "材料一：作品梗概（各片段场次摘要合成）\n";
pub const SOUL_1: &'static str = "\n\n材料二：";
pub const SOUL_2: &'static str = " 的事件时间线（含情绪注记）\n";
pub const SOUL_3: &'static str = "\n\n材料三：他人对 ";
pub const SOUL_4: &'static str = " 的评价（幕后提及）\n";
pub const SOUL_5: &'static str = "\n\n任务：写 soul.md（markdown，不要 frontmatter），结构如下：\n\n## 核心驱动力\n（她/他要什么，排在最前面的东西；用证据说话）\n\n## 价值观\n（什么会被认可/嘲讽/无视；与常人差异处）\n\n## 根本矛盾\n（2-4 条，每条都是无法自我调和的对立）\n\n## 弧线判定\n（在「成长 / 揭示 / 堕落 / 无弧线」中明确判定一种，给出依据；这是后续所有档案的锚点，判定后不得在其他文件中写出与弧线矛盾的变化）\n\n## 情绪处理机制\n（默认状态；压力应对；情绪如何泄露进台词与动作——例如措辞如何变化、动作如何变化，附引文）";
pub const SPEECH_0: &'static str = "材料一：";
pub const SPEECH_1: &'static str = " 的全部台词语料（按时序，[引用单元] 台词）\n";
pub const SPEECH_2: &'static str = "\n\n材料二：soul.md 结论（语言必须与灵魂一致）\n";
pub const SPEECH_3: &'static str = "\n\n任务：写 speech_patterns.md（markdown，不要 frontmatter），结构如下：\n\n## 言语基调\n（语速、语体、温度；内容与语调的反差规律）\n\n## 句式指纹\n（祈使/反问/省略/选择题……每种句式附至少一条原文引文）\n\n## 称谓系统\n（怎么称呼每个人；称谓是否恒定；称谓变化的信号意义）\n\n## 口癖与高频表达\n（高频词句与出现密度估计；注意：高频不等于口头禅，不要硬凑）\n\n## 跨对象语言差异\n（对上/对下/对敌/对亲近者的语域切换，各附引文对照）\n\n## 标志性台词\n（5-10 条，逐字照录并附引用单元；宁缺毋滥，无法逐字定位的不许列）";
pub const BEHAVIOR_0: &'static str = "材料一：";
pub const BEHAVIOR_1: &'static str = " 的动作/舞台指示摘录（原始素材）\n";
pub const BEHAVIOR_2: &'static str = "\n\n材料二：事件时间线\n";
pub const BEHAVIOR_3: &'static str = "\n\n材料三：soul.md 结论（行为必须与灵魂一致）\n";
pub const BEHAVIOR_4: &'static str = "\n\n任务：写 behavior_guide.md（markdown，不要 frontmatter），结构如下：\n\n## 动作库\n（高频动作/姿态/习惯，每条附出处；区分「她做的」与「她让别人做的」）\n\n## 社交剧本\n（面对请求/威胁/示好/质问/背叛时的标准应对策略，各附证据）\n\n## If-Then 行为规则\n（遇 X 则 Y，至少 8 条，每条都要有证据支撑或与 soul 结论直接一致；这是写新场景时的行为查表）\n\n## 冲突协议\n（如适用：她如何战斗/报复/清除障碍——直接动手还是借力，附证据）";
pub const RELATION_0: &'static str = "材料一：";
pub const RELATION_1: &'static str = " 的关系信号全集\n";
pub const RELATION_2: &'static str = "\n\n材料二：他人对 ";
pub const RELATION_3: &'static str = " 的评价\n";
pub const RELATION_4: &'static str = "\n\n材料三：soul.md 结论（关系的性质必须与灵魂一致——如果 soul 判定她只会建立支配关系，就不要写她对等关系）\n";
pub const RELATION_5: &'static str = "\n\n任务：写 relationship_dynamics.md（markdown，不要 frontmatter）：\n- 按关系对象分节（## 对象名），只写材料中出现过实质互动的对象（3-6 个主要对象）\n- 每节含：关系性质、权力方向（谁在上的具体表现）、她对这个人的策略、关键场景证据（引文）\n- 最后一节 ## 关系总模式（所有关系共同的结构规律）";
pub const EVENTS_0: &'static str = "材料一：作品梗概\n";
pub const EVENTS_1: &'static str = "\n\n材料二：涉及 ";
pub const EVENTS_2: &'static str = " 的事件时间线\n";
pub const EVENTS_3: &'static str = "\n\n材料三：soul.md 结论\n";
pub const EVENTS_4: &'static str = "\n\n任务：写 key_life_events.md（markdown，不要 frontmatter），结构如下：\n\n## 编年事件锚点\n（按时间序列出关键事件：每个事件一行，附引用单元；只写材料中有的）\n\n## 留白区清单\n（原作未交代的重要信息：身世细节、动机深处、关键时间段空白……逐条列出，每条标注「写作时不得填充」的边界）";
pub const LIMIT_0: &'static str = "以下是 ";
pub const LIMIT_1: &'static str = " 档案前五份文件的结论材料：\n\n";
pub const LIMIT_2: &'static str = "\n\n任务：写 limit.md（markdown，不要 frontmatter），结构如下：\n\n## OOC 红线\n（写了就崩：与灵魂/弧线/语言直接矛盾的行为与台词模式，逐条列出「禁止 X，因为 Y」）\n\n## 证据规则\n（哪些论断有原文支撑、哪些是合理推断、哪些是留白——写作时的引用纪律）\n\n## 卡内禁写事项\n（与其他档案结论冲突的常见写法，逐条禁止）";
pub const INDEX_0: &'static str = "以下是 ";
pub const INDEX_1: &'static str = " 档案的全部子文件：\n\n";
pub const INDEX_2: &'static str = "\n\n任务：写 index.md 的正文（markdown，不要 frontmatter，程序会自动加 frontmatter），结构如下：\n\n## 一句话抓住这个角色\n（一句凝练的判词，必须能统摄下方全部文件的核心结论）\n\n## 三条铁律\n（写这个角色时不可违背的三条；每条一句话，加粗关键词）\n\n## 阅读顺序\n（写哪种场景先查哪个文件，逐条指引）\n\n## 使用注意\n（3-5 条军规：最容易写崩的地方怎么防）";

/// The user message of the `notes` prompt around its materials.
pub open spec fn notes_text(seg_label: Seq<char>, content: Seq<char>) -> Seq<char> {
    NOTES_0@ + seg_label + NOTES_1@ + content + NOTES_2@
}

fn notes_fill(seg_label: &str, content: &str) -> (r: String)
    ensures
        r@ == notes_text(seg_label@, content@),
{
    let mut v: Vec<char> = Vec::new();
    push_str_chars(&mut v, NOTES_0);
    push_str_chars(&mut v, seg_label);
    push_str_chars(&mut v, NOTES_1);
    push_str_chars(&mut v, content);
    push_str_chars(&mut v, NOTES_2);
    string_of(&v)
}

/// The user message of the `soul` prompt around its materials.
pub open spec fn soul_text(synopsis: Seq<char>, name: Seq<char>, events: Seq<char>, mentions: Seq<char>) -> Seq<char> {
    SOUL_0@ + synopsis + SOUL_1@ + name + SOUL_2@ + events + SOUL_3@ + name + SOUL_4@ + mentions + SOUL_5@
}

fn soul_fill(synopsis: &str, name: &str, events: &str, mentions: &str) -> (r: String)
    ensures
        r@ == soul_text(synopsis@, name@, events@, mentions@),
{
    let mut v: Vec<char> = Vec::new();
    push_str_chars(&mut v, SOUL_0);
    push_str_chars(&mut v, synopsis);
    push_str_chars(&mut v, SOUL_1);
    push_str_chars(&mut v, name);
    push_str_chars(&mut v, SOUL_2);
    push_str_chars(&mut v, events);
    push_str_chars(&mut v, SOUL_3);
    push_str_chars(&mut v, name);
    push_str_chars(&mut v, SOUL_4);
    push_str_chars(&mut v, mentions);
    push_str_chars(&mut v, SOUL_5);
    string_of(&v)
}

/// The user message of the `speech` prompt around its materials.
pub open spec fn speech_text(name: Seq<char>, dialogues: Seq<char>, soul: Seq<char>) -> Seq<char> {
    SPEECH_0@ + name + SPEECH_1@ + dialogues + SPEECH_2@ + soul + SPEECH_3@
}

fn speech_fill(name: &str, dialogues: &str, soul: &str) -> (r: String)
    ensures
        r@ == speech_text(name@, dialogues@, soul@),
{
    let mut v: Vec<char> = Vec::new();
    push_str_chars(&mut v, SPEECH_0);
    push_str_chars(&mut v, name);
    push_str_chars(&mut v, SPEECH_1);
    push_str_chars(&mut v, dialogues);
    push_str_chars(&mut v, SPEECH_2);
    push_str_chars(&mut v, soul);
    push_str_chars(&mut v, SPEECH_3);
    string_of(&v)
}

/// The user message of the `behavior` prompt around its materials.
pub open spec fn behavior_text(name: Seq<char>, actions: Seq<char>, events: Seq<char>, soul: Seq<char>) -> Seq<char> {
    BEHAVIOR_0@ + name + BEHAVIOR_1@ + actions + BEHAVIOR_2@ + events + BEHAVIOR_3@ + soul + BEHAVIOR_4@
}

fn behavior_fill(name: &str, actions: &str, events: &str, soul: &str) -> (r: String)
    ensures
        r@ == behavior_text(name@, actions@, events@, soul@),
{
    let mut v: Vec<char> = Vec::new();
    push_str_chars(&mut v, BEHAVIOR_0);
    push_str_chars(&mut v, name);
    push_str_chars(&mut v, BEHAVIOR_1);
    push_str_chars(&mut v, actions);
    push_str_chars(&mut v, BEHAVIOR_2);
    push_str_chars(&mut v, events);
    push_str_chars(&mut v, BEHAVIOR_3);
    push_str_chars(&mut v, soul);
    push_str_chars(&mut v, BEHAVIOR_4);
    string_of(&v)
}

/// The user message of the `relationship` prompt around its materials.
pub open spec fn relationship_text(name: Seq<char>, relations: Seq<char>, mentions: Seq<char>, soul: Seq<char>) -> Seq<char> {
    RELATION_0@ + name + RELATION_1@ + relations + RELATION_2@ + name + RELATION_3@ + mentions + RELATION_4@ + soul + RELATION_5@
}

fn relationship_fill(name: &str, relations: &str, mentions: &str, soul: &str) -> (r: String)
    ensures
        r@ == relationship_text(name@, relations@, mentions@, soul@),
{
    let mut v: Vec<char> = Vec::new();
    push_str_chars(&mut v, RELATION_0);
    push_str_chars(&mut v, name);
    push_str_chars(&mut v, RELATION_1);
    push_str_chars(&mut v, relations);
    push_str_chars(&mut v, RELATION_2);
    push_str_chars(&mut v, name);
    push_str_chars(&mut v, RELATION_3);
    push_str_chars(&mut v, mentions);
    push_str_chars(&mut v, RELATION_4);
    push_str_chars(&mut v, soul);
    push_str_chars(&mut v, RELATION_5);
    string_of(&v)
}

/// The user message of the `events` prompt around its materials.
pub open spec fn events_text(synopsis: Seq<char>, name: Seq<char>, events: Seq<char>, soul: Seq<char>) -> Seq<char> {
    EVENTS_0@ + synopsis + EVENTS_1@ + name + EVENTS_2@ + events + EVENTS_3@ + soul + EVENTS_4@
}

fn events_fill(synopsis: &str, name: &str, events: &str, soul: &str) -> (r: String)
    ensures
        r@ == events_text(synopsis@, name@, events@, soul@),
{
    let mut v: Vec<char> = Vec::new();
    push_str_chars(&mut v, EVENTS_0);
    push_str_chars(&mut v, synopsis);
    push_str_chars(&mut v, EVENTS_1);
    push_str_chars(&mut v, name);
    push_str_chars(&mut v, EVENTS_2);
    push_str_chars(&mut v, events);
    push_str_chars(&mut v, EVENTS_3);
    push_str_chars(&mut v, soul);
    push_str_chars(&mut v, EVENTS_4);
    string_of(&v)
}

/// The user message of the `limit` prompt around its materials.
pub open spec fn limit_text(name: Seq<char>, conclusions: Seq<char>) -> Seq<char> {
    LIMIT_0@ + name + LIMIT_1@ + conclusions + LIMIT_2@
}

fn limit_fill(name: &str, conclusions: &str) -> (r: String)
    ensures
        r@ == limit_text(name@, conclusions@),
{
    let mut v: Vec<char> = Vec::new();
    push_str_chars(&mut v, LIMIT_0);
    push_str_chars(&mut v, name);
    push_str_chars(&mut v, LIMIT_1);
    push_str_chars(&mut v, conclusions);
    push_str_chars(&mut v, LIMIT_2);
    string_of(&v)
}

/// The user message of the `index` prompt around its materials.
pub open spec fn index_text(name: Seq<char>, bundle: Seq<char>) -> Seq<char> {
    INDEX_0@ + name + INDEX_1@ + bundle + INDEX_2@
}

fn index_fill(name: &str, bundle: &str) -> (r: String)
    ensures
        r@ == index_text(name@, bundle@),
{
    let mut v: Vec<char> = Vec::new();
    push_str_chars(&mut v, INDEX_0);
    push_str_chars(&mut v, name);
    push_str_chars(&mut v, INDEX_1);
    push_str_chars(&mut v, bundle);
    push_str_chars(&mut v, INDEX_2);
    string_of(&v)
}
/// Opening of the user message for a file that has no prompt.
pub const UNKNOWN_FILE_0: &'static str = "（未知文件 ";
/// Closing of the user message for a file that has no prompt.
pub const UNKNOWN_FILE_1: &'static str = "，无法重建提示词）";

/// The user message that generated file `name`, rebuilt when its quotes must
/// be repaired: the prompt of that file from the same materials (`dep` the
/// first five files for `limit`, `six` all six for `index`), or a note for an
/// unknown name.
pub open spec fn rebuild_user_spec(
    name: Seq<char>,
    character: Seq<char>,
    pack: EvidencePack,
    notes: Seq<SegmentNote>,
    soul: Seq<char>,
    dep: Seq<(String, String)>,
    six: Seq<(String, String)>,
) -> Seq<char> {
    if name == "soul"@ {
        soul_text(synopsis_block_spec(notes), character, event_block_spec(pack_events(pack)),
            mention_block_spec(pack_mentions(pack)))
    } else if name == "speech_patterns"@ {
        speech_text(character, dialogue_block_spec(pack_dialogues(pack), pack.sampled, 800), soul)
    } else if name == "behavior_guide"@ {
        behavior_text(character, action_block_spec(pack_actions(pack)), event_block_spec(pack_events(pack)), soul)
    } else if name == "relationship_dynamics"@ {
        relationship_text(character, relation_block_spec(pack_relations(pack)), mention_block_spec(pack_mentions(pack)), soul)
    } else if name == "key_life_events"@ {
        events_text(synopsis_block_spec(notes), character, event_block_spec(pack_events(pack)), soul)
    } else if name == "limit"@ {
        limit_text(character, join(file_pairs(dep).map_values(|f: (Seq<char>, Seq<char>)| conclusion_part(f)), nl()))
    } else if name == "index"@ {
        index_text(character, join(file_pairs(six).map_values(|f: (Seq<char>, Seq<char>)| bundle_part(f)), nl()))
    } else {
        UNKNOWN_FILE_0@ + name + UNKNOWN_FILE_1@
    }
}

/// A name that has a prompt.
pub open spec fn known_file(name: Seq<char>) -> bool {
    name == "soul"@ || name == "speech_patterns"@ || name == "behavior_guide"@
        || name == "relationship_dynamics"@ || name == "key_life_events"@ || name == "limit"@
        || name == "index"@
}

/// The system and user messages that generated file `name`: the same prompt
/// as its first generation, or an empty system message and a note for a name
/// that has no prompt.
pub fn rebuild_prompt(
    name: &str,
    work: &str,
    character: &str,
    pack: &EvidencePack,
    notes: &[SegmentNote],
    soul: &str,
    dep_refs: &[(String, String)],
    six_refs: &[(String, String)],
) -> (r: (String, String))
    ensures
        r.0@ == (if known_file(name@) { system_spec(work@, character@) } else { Seq::<char>::empty() }),
        r.1@ == rebuild_user_spec(name@, character@, *pack, notes@, soul@, dep_refs@, six_refs@),
{
    if str_eq(name, "soul") {
        soul_prompt(work, character, pack, notes)
    } else if str_eq(name, "speech_patterns") {
        speech_prompt(work, character, pack, soul)
    } else if str_eq(name, "behavior_guide") {
        behavior_prompt(work, character, pack, soul)
    } else if str_eq(name, "relationship_dynamics") {
        relationship_prompt(work, character, pack, soul)
    } else if str_eq(name, "key_life_events") {
        events_prompt(work, character, pack, notes, soul)
    } else if str_eq(name, "limit") {
        limit_prompt(work, character, dep_refs)
    } else if str_eq(name, "index") {
        index_prompt(work, character, six_refs)
    } else {
        let mut v: Vec<char> = Vec::new();
        push_str_chars(&mut v, UNKNOWN_FILE_0);
        push_str_chars(&mut v, name);
        push_str_chars(&mut v, UNKNOWN_FILE_1);
        (String::new(), string_of(&v))
    }
}
} // verus!
