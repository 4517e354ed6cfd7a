//! Evidence layer: segment notes (produced by the model) and the evidence
//! pack of one character, assembled deterministically. Quoted material is
//! never paraphrased: dialogue lines are copied verbatim.

use vstd::prelude::*;
use crate::chunk::{is_scene_heading, is_scene_heading_line, SegV, SourceSegment};
use crate::probe::{dialogue_parse, parse_dialogue_chars, scene_at_chars, scene_at_spec};
use crate::text::{
    chars_of, contains_chars, contains_seq, line_spans, lines, seqs_view, slice_to_vec, spans_match,
    string_of, trim, trim_span, trim_start,
};

verus! {

/// More dialogue lines than this are sampled down.
pub const DIALOGUE_CORPUS_MAX_LINES: usize = 2000;
/// Dialogue lines kept by sampling.
pub const DIALOGUE_PUSH_MAX_LINES: usize = 400;
/// Lines kept unsampled at each end.
pub const DIALOGUE_EDGE_KEEP: usize = 40;
/// Shortest name or alias that takes part in containment matching.
pub const ALIAS_MIN_LEN_FOR_CONTAINS: usize = 2;

pub open spec fn strings_view(v: Seq<String>) -> Seq<Seq<char>> {
    v.map_values(|s: String| s@)
}

/// `key` (at least two characters long) occurs in `t`.
pub open spec fn key_hits(t: Seq<char>, key: Seq<char>) -> bool {
    key.len() >= 2 && contains_seq(t, key)
}

/// `t` is the key itself, or contains it and the key is at least two characters long.
pub open spec fn key_names(t: Seq<char>, key: Seq<char>) -> bool {
    t == key || key_hits(t, key)
}

/// Name matching: the trimmed target equals the trimmed name or a trimmed
/// alias, or contains the name or an alias of at least two characters.
pub open spec fn name_matches_spec(name: Seq<char>, aliases: Seq<Seq<char>>, target: Seq<char>) -> bool {
    let t = trim(target);
    t.len() > 0 && (key_names(t, trim(name)) || exists|i: int|
        0 <= i < aliases.len() && #[trigger] key_names(t, trim(aliases[i])))
}

fn trimmed(s: &[char]) -> (r: Vec<char>)
    ensures
        r@ == trim(s@),
{
    let (a, b) = trim_span(s, 0, s.len());
    assert(s@.subrange(0, s@.len() as int) =~= s@);
    slice_to_vec(s, a, b)
}

fn key_hits_exec(t: &[char], key: &[char]) -> (r: bool)
    ensures
        r == key_hits(t@, key@),
{
    key.len() >= ALIAS_MIN_LEN_FOR_CONTAINS && contains_chars(t, key)
}

/// Name matching on characters; aliases already converted.
pub fn name_matches_chars(name: &[char], aliases: &Vec<Vec<char>>, target: &[char]) -> (r: bool)
    ensures
        r == name_matches_spec(name@, seqs_view(aliases@), target@),
{
    let t = trimmed(target);
    if t.len() == 0 {
        return false;
    }
    let n = trimmed(name);
    if crate::text::chars_eq(&t, &n) || key_hits_exec(&t, &n) {
        return true;
    }
    let mut i: usize = 0;
    while i < aliases.len()
        invariant
            i <= aliases@.len(),
            t@ == trim(target@),
            t@.len() > 0,
            forall|j: int| 0 <= j < i ==> !key_names(t@, trim(#[trigger] seqs_view(aliases@)[j])),
        decreases aliases@.len() - i,
    {
        let a = trimmed(&aliases[i]);
        if crate::text::chars_eq(&t, &a) || key_hits_exec(&t, &a) {
            assert(key_names(t@, trim(seqs_view(aliases@)[i as int])));
            return true;
        }
        i += 1;
    }
    false
}

/// The aliases as character vectors.
pub fn alias_chars(aliases: &[String]) -> (r: Vec<Vec<char>>)
    ensures
        seqs_view(r@) == strings_view(aliases@),
{
    let mut r: Vec<Vec<char>> = Vec::new();
    let mut i: usize = 0;
    while i < aliases.len()
        invariant
            i <= aliases@.len(),
            seqs_view(r@) == strings_view(aliases@).take(i as int),
        decreases aliases@.len() - i,
    {
        let ghost prev = r@;
        r.push(chars_of(aliases[i].as_str()));
        assert(seqs_view(r@) =~= seqs_view(prev).push(aliases@[i as int]@));
        assert(strings_view(aliases@).take(i + 1) =~= strings_view(aliases@).take(i as int).push(aliases@[i as int]@));
        i += 1;
    }
    assert(strings_view(aliases@).take(aliases@.len() as int) =~= strings_view(aliases@));
    r
}

/// Whether `target` names the character: exactly (the name or an alias),
/// or by containing the name or an alias of at least two characters.
pub fn name_matches(name: &str, aliases: &[String], target: &str) -> (r: bool)
    ensures
        r == name_matches_spec(name@, strings_view(aliases@), target@),
{
    let n = chars_of(name);
    let a = alias_chars(aliases);
    let t = chars_of(target);
    name_matches_chars(&n, &a, &t)
}


// ---- segment notes ----

#[derive(Debug, Clone, PartialEq)]
pub struct SceneSummary {
    pub scene: String,
    pub summary: String,
}

#[derive(Debug, Clone, PartialEq)]
pub struct NoteEvent {
    pub scene: String,
    pub what: String,
    pub who: Vec<String>,
    pub emotion: Option<String>,
}

#[derive(Debug, Clone, PartialEq)]
pub struct RelationshipSignal {
    pub a: String,
    pub b: String,
    pub signal: String,
    pub scene: String,
}

#[derive(Debug, Clone, PartialEq)]
pub struct Mention {
    pub about: String,
    pub by: String,
    pub content: String,
    pub scene: String,
}

#[derive(Debug, Clone, PartialEq)]
pub struct NoteDialogue {
    pub character: String,
    pub line: String,
    pub scene: String,
}

/// Structured notes of one segment (model output, parsed leniently).
#[derive(Debug, Clone, PartialEq)]
pub struct SegmentNote {
    /// Label of the chunk segment (filled in by the program).
    pub segment: String,
    pub scene_summaries: Vec<SceneSummary>,
    /// Characters on stage, as written in the text.
    pub characters_on_stage: Vec<String>,
    pub events: Vec<NoteEvent>,
    pub relationship_signals: Vec<RelationshipSignal>,
    /// Off-stage mentions and judgements.
    pub mentions: Vec<Mention>,
    pub dialogues: Vec<NoteDialogue>,
}

#[derive(Debug, Clone, PartialEq)]
pub struct Dialogue {
    pub scene: String,
    pub line: String,
}

#[derive(Debug, Clone, PartialEq)]
pub struct ActionLine {
    pub scene: String,
    pub text: String,
}

/// The evidence of one character.
#[derive(Debug, Clone, PartialEq)]
pub struct EvidencePack {
    pub character: String,
    pub aliases: Vec<String>,
    /// All dialogue lines (or a sample of them).
    pub dialogues: Vec<Dialogue>,
    /// Action and stage-direction lines near the character's lines.
    pub actions: Vec<ActionLine>,
    /// Events from the notes, in order.
    pub events: Vec<NoteEvent>,
    pub mentions: Vec<Mention>,
    pub relationship_signals: Vec<RelationshipSignal>,
    /// Whether `dialogues` was sampled.
    pub sampled: bool,
}

pub type EventV = (Seq<char>, Seq<char>, Seq<Seq<char>>, Option<Seq<char>>);
pub type MentionV = (Seq<char>, Seq<char>, Seq<char>, Seq<char>);
pub type RelationV = (Seq<char>, Seq<char>, Seq<char>, Seq<char>);
pub type NoteDialogueV = (Seq<char>, Seq<char>, Seq<char>);
/// (scene, line) or (scene, text)
pub type PairV = (Seq<char>, Seq<char>);

pub open spec fn event_view(e: NoteEvent) -> EventV {
    (e.scene@, e.what@, strings_view(e.who@), match e.emotion { Some(x) => Some(x@), None => None })
}

pub open spec fn mention_view(m: Mention) -> MentionV {
    (m.about@, m.by@, m.content@, m.scene@)
}

pub open spec fn relation_view(r: RelationshipSignal) -> RelationV {
    (r.a@, r.b@, r.signal@, r.scene@)
}

pub open spec fn note_dialogue_view(d: NoteDialogue) -> NoteDialogueV {
    (d.character@, d.line@, d.scene@)
}

pub open spec fn dialogue_view(d: Dialogue) -> PairV {
    (d.scene@, d.line@)
}

pub open spec fn action_view(a: ActionLine) -> PairV {
    (a.scene@, a.text@)
}

pub fn copy_strings(v: &[String]) -> (r: Vec<String>)
    ensures
        strings_view(r@) == strings_view(v@),
{
    let mut r: Vec<String> = Vec::new();
    let mut i: usize = 0;
    while i < v.len()
        invariant
            i <= v@.len(),
            strings_view(r@) == strings_view(v@).take(i as int),
        decreases v@.len() - i,
    {
        let ghost prev = r@;
        r.push(v[i].clone());
        assert(strings_view(r@) =~= strings_view(prev).push(v@[i as int]@));
        assert(strings_view(v@).take(i + 1) =~= strings_view(v@).take(i as int).push(v@[i as int]@));
        i += 1;
    }
    assert(strings_view(v@).take(v@.len() as int) =~= strings_view(v@));
    r
}

pub fn copy_event(e: &NoteEvent) -> (r: NoteEvent)
    ensures
        event_view(r) == event_view(*e),
{
    NoteEvent {
        scene: e.scene.clone(),
        what: e.what.clone(),
        who: copy_strings(&e.who),
        emotion: match &e.emotion { Some(x) => Some(x.clone()), None => None },
    }
}

pub fn copy_mention(m: &Mention) -> (r: Mention)
    ensures
        mention_view(r) == mention_view(*m),
{
    Mention { about: m.about.clone(), by: m.by.clone(), content: m.content.clone(), scene: m.scene.clone() }
}

pub fn copy_relation(x: &RelationshipSignal) -> (r: RelationshipSignal)
    ensures
        relation_view(r) == relation_view(*x),
{
    RelationshipSignal { a: x.a.clone(), b: x.b.clone(), signal: x.signal.clone(), scene: x.scene.clone() }
}

pub fn copy_dialogue(d: &Dialogue) -> (r: Dialogue)
    ensures
        dialogue_view(r) == dialogue_view(*d),
{
    Dialogue { scene: d.scene.clone(), line: d.line.clone() }
}

// ---- note aggregation ----

pub open spec fn event_about(name: Seq<char>, aliases: Seq<Seq<char>>, e: EventV) -> bool {
    exists|i: int| 0 <= i < e.2.len() && #[trigger] name_matches_spec(name, aliases, e.2[i])
}

/// Events among `evs[..j]` in which the character takes part.
pub open spec fn events_upto(name: Seq<char>, aliases: Seq<Seq<char>>, evs: Seq<EventV>, j: int) -> Seq<EventV>
    decreases j,
{
    if j <= 0 {
        seq![]
    } else {
        let prev = events_upto(name, aliases, evs, j - 1);
        if event_about(name, aliases, evs[j - 1]) { prev.push(evs[j - 1]) } else { prev }
    }
}

/// Mentions among `ms[..j]` about the character.
pub open spec fn mentions_upto(name: Seq<char>, aliases: Seq<Seq<char>>, ms: Seq<MentionV>, j: int) -> Seq<MentionV>
    decreases j,
{
    if j <= 0 {
        seq![]
    } else {
        let prev = mentions_upto(name, aliases, ms, j - 1);
        if name_matches_spec(name, aliases, ms[j - 1].0) { prev.push(ms[j - 1]) } else { prev }
    }
}

/// Relationship signals among `rs[..j]` with the character on either side.
pub open spec fn relations_upto(name: Seq<char>, aliases: Seq<Seq<char>>, rs: Seq<RelationV>, j: int) -> Seq<RelationV>
    decreases j,
{
    if j <= 0 {
        seq![]
    } else {
        let prev = relations_upto(name, aliases, rs, j - 1);
        if name_matches_spec(name, aliases, rs[j - 1].0) || name_matches_spec(name, aliases, rs[j - 1].1) {
            prev.push(rs[j - 1])
        } else {
            prev
        }
    }
}

/// Note dialogues among `ds[..j]` spoken by the character, as (scene, line).
pub open spec fn note_lines_upto(name: Seq<char>, aliases: Seq<Seq<char>>, ds: Seq<NoteDialogueV>, j: int) -> Seq<PairV>
    decreases j,
{
    if j <= 0 {
        seq![]
    } else {
        let prev = note_lines_upto(name, aliases, ds, j - 1);
        if name_matches_spec(name, aliases, ds[j - 1].0) { prev.push((ds[j - 1].2, ds[j - 1].1)) } else { prev }
    }
}

pub open spec fn note_events(n: SegmentNote) -> Seq<EventV> {
    n.events@.map_values(|e: NoteEvent| event_view(e))
}

pub open spec fn note_mentions(n: SegmentNote) -> Seq<MentionV> {
    n.mentions@.map_values(|m: Mention| mention_view(m))
}

pub open spec fn note_relations(n: SegmentNote) -> Seq<RelationV> {
    n.relationship_signals@.map_values(|r: RelationshipSignal| relation_view(r))
}

pub open spec fn note_dialogues(n: SegmentNote) -> Seq<NoteDialogueV> {
    n.dialogues@.map_values(|d: NoteDialogue| note_dialogue_view(d))
}

/// Events about the character from the first `k` notes.
pub open spec fn pack_events(name: Seq<char>, aliases: Seq<Seq<char>>, notes: Seq<SegmentNote>, k: int) -> Seq<EventV>
    decreases k,
{
    if k <= 0 {
        seq![]
    } else {
        let evs = note_events(notes[k - 1]);
        pack_events(name, aliases, notes, k - 1) + events_upto(name, aliases, evs, evs.len() as int)
    }
}

pub open spec fn pack_mentions(name: Seq<char>, aliases: Seq<Seq<char>>, notes: Seq<SegmentNote>, k: int) -> Seq<MentionV>
    decreases k,
{
    if k <= 0 {
        seq![]
    } else {
        let ms = note_mentions(notes[k - 1]);
        pack_mentions(name, aliases, notes, k - 1) + mentions_upto(name, aliases, ms, ms.len() as int)
    }
}

pub open spec fn pack_relations(name: Seq<char>, aliases: Seq<Seq<char>>, notes: Seq<SegmentNote>, k: int) -> Seq<RelationV>
    decreases k,
{
    if k <= 0 {
        seq![]
    } else {
        let rs = note_relations(notes[k - 1]);
        pack_relations(name, aliases, notes, k - 1) + relations_upto(name, aliases, rs, rs.len() as int)
    }
}

pub open spec fn pack_note_lines(name: Seq<char>, aliases: Seq<Seq<char>>, notes: Seq<SegmentNote>, k: int) -> Seq<PairV>
    decreases k,
{
    if k <= 0 {
        seq![]
    } else {
        let ds = note_dialogues(notes[k - 1]);
        pack_note_lines(name, aliases, notes, k - 1) + note_lines_upto(name, aliases, ds, ds.len() as int)
    }
}

fn collect_events(name: &[char], aliases: &Vec<Vec<char>>, notes: &[SegmentNote], out: &mut Vec<NoteEvent>)
    ensures
        final(out)@.map_values(|e: NoteEvent| event_view(e)) == old(out)@.map_values(|e: NoteEvent| event_view(e))
            + pack_events(name@, seqs_view(aliases@), notes@, notes@.len() as int),
{
    let ghost base = out@.map_values(|e: NoteEvent| event_view(e));
    let ghost al = seqs_view(aliases@);
    let mut k: usize = 0;
    while k < notes.len()
        invariant
            k <= notes@.len(),
            al == seqs_view(aliases@),
            out@.map_values(|e: NoteEvent| event_view(e)) == base + pack_events(name@, al, notes@, k as int),
        decreases notes@.len() - k,
    {
        let evs = &notes[k].events;
        let ghost ev = note_events(notes@[k as int]);
        let ghost mid = out@.map_values(|e: NoteEvent| event_view(e));
        let mut j: usize = 0;
        while j < evs.len()
            invariant
                j <= evs@.len(),
                evs@ == notes@[k as int].events@,
                ev == note_events(notes@[k as int]),
                al == seqs_view(aliases@),
                out@.map_values(|e: NoteEvent| event_view(e)) == mid + events_upto(name@, al, ev, j as int),
            decreases evs@.len() - j,
        {
            let e = &evs[j];
            assert(ev[j as int] == event_view(*e));
            let mut hit = false;
            let mut w: usize = 0;
            while w < e.who.len()
                invariant
                    w <= e.who@.len(),
                    al == seqs_view(aliases@),
                    !hit ==> forall|x: int| 0 <= x < w ==> !name_matches_spec(name@, al, #[trigger] strings_view(e.who@)[x]),
                    hit ==> event_about(name@, al, event_view(*e)),
                decreases e.who@.len() - w,
            {
                if !hit {
                    let target = chars_of(e.who[w].as_str());
                    if name_matches_chars(name, aliases, &target) {
                        hit = true;
                        assert(name_matches_spec(name@, al, strings_view(e.who@)[w as int]));
                    }
                }
                w += 1;
            }
            let ghost prev = out@.map_values(|e: NoteEvent| event_view(e));
            if hit {
                out.push(copy_event(e));
                assert(out@.map_values(|e: NoteEvent| event_view(e)) =~= prev.push(event_view(*e)));
            } else {
                assert(!event_about(name@, al, event_view(*e)));
            }
            j += 1;
        }
        assert(ev.len() == evs@.len());
        k += 1;
    }
}


fn collect_mentions(name: &[char], aliases: &Vec<Vec<char>>, notes: &[SegmentNote], out: &mut Vec<Mention>)
    ensures
        final(out)@.map_values(|m: Mention| mention_view(m)) == old(out)@.map_values(|m: Mention| mention_view(m))
            + pack_mentions(name@, seqs_view(aliases@), notes@, notes@.len() as int),
{
    let ghost base = out@.map_values(|m: Mention| mention_view(m));
    let ghost al = seqs_view(aliases@);
    let mut k: usize = 0;
    while k < notes.len()
        invariant
            k <= notes@.len(),
            al == seqs_view(aliases@),
            out@.map_values(|m: Mention| mention_view(m)) == base + pack_mentions(name@, al, notes@, k as int),
        decreases notes@.len() - k,
    {
        let ms = &notes[k].mentions;
        let ghost mv = note_mentions(notes@[k as int]);
        let ghost mid = out@.map_values(|m: Mention| mention_view(m));
        let mut j: usize = 0;
        while j < ms.len()
            invariant
                j <= ms@.len(),
                ms@ == notes@[k as int].mentions@,
                mv == note_mentions(notes@[k as int]),
                al == seqs_view(aliases@),
                out@.map_values(|m: Mention| mention_view(m)) == mid + mentions_upto(name@, al, mv, j as int),
            decreases ms@.len() - j,
        {
            let m = &ms[j];
            assert(mv[j as int] == mention_view(*m));
            let about = chars_of(m.about.as_str());
            let ghost prev = out@.map_values(|m: Mention| mention_view(m));
            if name_matches_chars(name, aliases, &about) {
                out.push(copy_mention(m));
                assert(out@.map_values(|m: Mention| mention_view(m)) =~= prev.push(mention_view(*m)));
            }
            j += 1;
        }
        k += 1;
    }
}

fn collect_relations(name: &[char], aliases: &Vec<Vec<char>>, notes: &[SegmentNote], out: &mut Vec<RelationshipSignal>)
    ensures
        final(out)@.map_values(|r: RelationshipSignal| relation_view(r)) == old(out)@.map_values(|r: RelationshipSignal| relation_view(r))
            + pack_relations(name@, seqs_view(aliases@), notes@, notes@.len() as int),
{
    let ghost base = out@.map_values(|r: RelationshipSignal| relation_view(r));
    let ghost al = seqs_view(aliases@);
    let mut k: usize = 0;
    while k < notes.len()
        invariant
            k <= notes@.len(),
            al == seqs_view(aliases@),
            out@.map_values(|r: RelationshipSignal| relation_view(r)) == base + pack_relations(name@, al, notes@, k as int),
        decreases notes@.len() - k,
    {
        let rs = &notes[k].relationship_signals;
        let ghost rv = note_relations(notes@[k as int]);
        let ghost mid = out@.map_values(|r: RelationshipSignal| relation_view(r));
        let mut j: usize = 0;
        while j < rs.len()
            invariant
                j <= rs@.len(),
                rs@ == notes@[k as int].relationship_signals@,
                rv == note_relations(notes@[k as int]),
                al == seqs_view(aliases@),
                out@.map_values(|r: RelationshipSignal| relation_view(r)) == mid + relations_upto(name@, al, rv, j as int),
            decreases rs@.len() - j,
        {
            let r = &rs[j];
            assert(rv[j as int] == relation_view(*r));
            let a = chars_of(r.a.as_str());
            let b = chars_of(r.b.as_str());
            let ghost prev = out@.map_values(|r: RelationshipSignal| relation_view(r));
            if name_matches_chars(name, aliases, &a) || name_matches_chars(name, aliases, &b) {
                out.push(copy_relation(r));
                assert(out@.map_values(|r: RelationshipSignal| relation_view(r)) =~= prev.push(relation_view(*r)));
            }
            j += 1;
        }
        k += 1;
    }
}

fn collect_note_lines(name: &[char], aliases: &Vec<Vec<char>>, notes: &[SegmentNote], out: &mut Vec<Dialogue>)
    ensures
        final(out)@.map_values(|d: Dialogue| dialogue_view(d)) == old(out)@.map_values(|d: Dialogue| dialogue_view(d))
            + pack_note_lines(name@, seqs_view(aliases@), notes@, notes@.len() as int),
{
    let ghost base = out@.map_values(|d: Dialogue| dialogue_view(d));
    let ghost al = seqs_view(aliases@);
    let mut k: usize = 0;
    while k < notes.len()
        invariant
            k <= notes@.len(),
            al == seqs_view(aliases@),
            out@.map_values(|d: Dialogue| dialogue_view(d)) == base + pack_note_lines(name@, al, notes@, k as int),
        decreases notes@.len() - k,
    {
        let ds = &notes[k].dialogues;
        let ghost dv = note_dialogues(notes@[k as int]);
        let ghost mid = out@.map_values(|d: Dialogue| dialogue_view(d));
        let mut j: usize = 0;
        while j < ds.len()
            invariant
                j <= ds@.len(),
                ds@ == notes@[k as int].dialogues@,
                dv == note_dialogues(notes@[k as int]),
                al == seqs_view(aliases@),
                out@.map_values(|d: Dialogue| dialogue_view(d)) == mid + note_lines_upto(name@, al, dv, j as int),
            decreases ds@.len() - j,
        {
            let d = &ds[j];
            assert(dv[j as int] == note_dialogue_view(*d));
            let who = chars_of(d.character.as_str());
            let ghost prev = out@.map_values(|d: Dialogue| dialogue_view(d));
            if name_matches_chars(name, aliases, &who) {
                out.push(Dialogue { scene: d.scene.clone(), line: d.line.clone() });
                assert(out@.map_values(|d: Dialogue| dialogue_view(d)) =~= prev.push((d.scene@, d.line@)));
            }
            j += 1;
        }
        k += 1;
    }
}

// ---- sampling ----

/// Even sampling: the first and last `edge` items, and `total - 2*edge`
/// items taken at even steps from the middle. Unchanged when there are at
/// most `total` items or `total <= 2*edge`.
pub open spec fn sample_evenly_spec<T>(items: Seq<T>, total: int, edge: int) -> Seq<T> {
    let n = items.len() as int;
    if n <= total || total <= 2 * edge {
        items
    } else {
        let take = total - 2 * edge;
        let mid = n - 2 * edge;
        items.take(edge) + Seq::new(take as nat, |k: int| items[edge + (k * mid) / take]) + items.skip(n - edge)
    }
}

pub proof fn lemma_sample_index(k: int, mid: int, take: int)
    requires
        0 <= k < take,
        0 < take,
        0 <= mid,
    ensures
        0 <= (k * mid) / take <= mid,
        take <= mid ==> (k * mid) / take < mid,
{
    assert(0 <= k * mid) by (nonlinear_arith)
        requires
            0 <= k,
            0 <= mid,
    ;
    assert(k * mid <= take * mid) by (nonlinear_arith)
        requires
            k < take,
            0 <= mid,
    ;
    assert((k * mid) / take <= mid) by (nonlinear_arith)
        requires
            0 <= k * mid <= take * mid,
            0 < take,
    ;
    if take <= mid {
        assert(k * mid < take * mid) by (nonlinear_arith)
            requires
                k < take,
                0 < take <= mid,
        ;
        assert((k * mid) / take < mid) by (nonlinear_arith)
            requires
                0 <= k * mid < take * mid,
                0 < take,
        ;
    }
}

/// An even sample of dialogue lines, keeping both edges.
pub fn sample_evenly(items: &[Dialogue], total: usize, edge: usize) -> (r: Vec<Dialogue>)
    ensures
        r@.map_values(|d: Dialogue| dialogue_view(d)) == sample_evenly_spec(
            items@.map_values(|d: Dialogue| dialogue_view(d)),
            total as int,
            edge as int,
        ),
        items@.len() > total && total > 2 * edge ==> r@.len() == total,
        items@.len() > total && total > 2 * edge ==> forall|i: int| 0 <= i < edge ==> #[trigger] dialogue_view(r@[i]) == dialogue_view(items@[i]),
        items@.len() > total && total > 2 * edge ==> forall|i: int| 0 <= i < edge ==> #[trigger] dialogue_view(r@[total - 1 - i]) == dialogue_view(items@[items@.len() - 1 - i]),
{
    let ghost iv = items@.map_values(|d: Dialogue| dialogue_view(d));
    let n = items.len();
    let mut out: Vec<Dialogue> = Vec::new();
    if n <= total || edge >= total - total / 2 {
        let mut i: usize = 0;
        while i < n
            invariant
                i <= n == items@.len(),
                iv == items@.map_values(|d: Dialogue| dialogue_view(d)),
                out@.map_values(|d: Dialogue| dialogue_view(d)) == iv.take(i as int),
            decreases n - i,
        {
            let ghost prev = out@.map_values(|d: Dialogue| dialogue_view(d));
            out.push(copy_dialogue(&items[i]));
            assert(out@.map_values(|d: Dialogue| dialogue_view(d)) =~= prev.push(iv[i as int]));
            assert(iv.take(i + 1) =~= iv.take(i as int).push(iv[i as int]));
            i += 1;
        }
        assert(iv.take(n as int) =~= iv);
        return out;
    }
    assert(total > 2 * edge);
    let take = total - 2 * edge;
    let mid = n - 2 * edge;
    let mut i: usize = 0;
    while i < edge
        invariant
            i <= edge,
            2 * edge < total < n == items@.len(),
            iv == items@.map_values(|d: Dialogue| dialogue_view(d)),
            out@.map_values(|d: Dialogue| dialogue_view(d)) == iv.take(i as int),
        decreases edge - i,
    {
        let ghost prev = out@.map_values(|d: Dialogue| dialogue_view(d));
        out.push(copy_dialogue(&items[i]));
        assert(out@.map_values(|d: Dialogue| dialogue_view(d)) =~= prev.push(iv[i as int]));
        assert(iv.take(i + 1) =~= iv.take(i as int).push(iv[i as int]));
        i += 1;
    }
    let ghost sampled = Seq::new(take as nat, |k: int| iv[edge + (k * (mid as int)) / (take as int)]);
    let mut k: usize = 0;
    while k < take
        invariant
            k <= take,
            take == total - 2 * edge,
            mid == n - 2 * edge,
            0 < take < mid,
            2 * edge < total < n == items@.len(),
            iv == items@.map_values(|d: Dialogue| dialogue_view(d)),
            sampled == Seq::new(take as nat, |k: int| iv[edge + (k * (mid as int)) / (take as int)]),
            out@.map_values(|d: Dialogue| dialogue_view(d)) == iv.take(edge as int) + sampled.take(k as int),
        decreases take - k,
    {
        proof {
            lemma_sample_index(k as int, mid as int, take as int);
        }
        let k128 = k as u128;
        let m128 = mid as u128;
        assert(k128 * m128 <= 0xffff_ffff_ffff_ffffu128 * 0xffff_ffff_ffff_ffffu128) by (nonlinear_arith)
            requires
                k128 <= 0xffff_ffff_ffff_ffffu128,
                m128 <= 0xffff_ffff_ffff_ffffu128,
        ;
        let idx = ((k128 * m128) / take as u128) as usize;
        assert(idx as int == ((k as int) * (mid as int)) / (take as int));
        let ghost prev = out@.map_values(|d: Dialogue| dialogue_view(d));
        out.push(copy_dialogue(&items[edge + idx]));
        assert(sampled[k as int] == iv[edge + idx]);
        assert(out@.map_values(|d: Dialogue| dialogue_view(d)) =~= prev.push(iv[edge + idx]));
        assert(sampled.take(k + 1) =~= sampled.take(k as int).push(sampled[k as int]));
        assert(iv.take(edge as int) + sampled.take(k + 1) =~= (iv.take(edge as int) + sampled.take(k as int)).push(sampled[k as int]));
        k += 1;
    }
    assert(sampled.take(take as int) =~= sampled);
    let mut j: usize = n - edge;
    while j < n
        invariant
            n - edge <= j <= n == items@.len(),
            2 * edge < total < n,
            iv == items@.map_values(|d: Dialogue| dialogue_view(d)),
            out@.map_values(|d: Dialogue| dialogue_view(d)) == iv.take(edge as int) + sampled + iv.subrange(n - edge, j as int),
        decreases n - j,
    {
        let ghost prev = out@.map_values(|d: Dialogue| dialogue_view(d));
        out.push(copy_dialogue(&items[j]));
        assert(out@.map_values(|d: Dialogue| dialogue_view(d)) =~= prev.push(iv[j as int]));
        assert(iv.take(edge as int) + sampled + iv.subrange(n - edge, j + 1) =~= (iv.take(edge as int) + sampled + iv.subrange(n - edge, j as int)).push(iv[j as int]));
        j += 1;
    }
    assert(iv.subrange(n - edge, n as int) =~= iv.skip(n - edge));
    proof {
        let ov = out@.map_values(|d: Dialogue| dialogue_view(d));
        assert(ov.len() == out@.len());
        assert forall|i: int| 0 <= i < edge implies #[trigger] dialogue_view(out@[i]) == dialogue_view(items@[i]) by {
            assert(ov[i] == iv[i]);
        }
        assert forall|i: int| 0 <= i < edge implies #[trigger] dialogue_view(out@[total - 1 - i]) == dialogue_view(items@[n - 1 - i]) by {
            assert(ov[total - 1 - i] == iv[n - 1 - i]);
        }
    }
    out
}


// ---- script-form extraction ----

/// The speech of `line` when it is an attribution line of the character.
pub open spec fn spoken_speech(name: Seq<char>, aliases: Seq<Seq<char>>, line: Seq<char>) -> Option<Seq<char>> {
    match dialogue_parse(line) {
        Some((speaker, speech)) => if name_matches_spec(name, aliases, speaker) && trim(speech).len() > 0 {
            Some(speech)
        } else {
            None
        },
        None => None,
    }
}

/// The character's lines among the first `k` lines of a segment, as (scene, line).
pub open spec fn seg_lines_upto(name: Seq<char>, aliases: Seq<Seq<char>>, seg: SegV, k: int) -> Seq<PairV>
    decreases k,
{
    if k <= 0 {
        seq![]
    } else {
        let prev = seg_lines_upto(name, aliases, seg, k - 1);
        match spoken_speech(name, aliases, lines(seg.1)[k - 1]) {
            Some(sp) => prev.push((scene_at_spec(seg.1, seg.0, k - 1), sp)),
            None => prev,
        }
    }
}

/// The line starts with an opening parenthesis (a stage direction).
pub open spec fn paren_start(line: Seq<char>) -> bool {
    let t = trim_start(line);
    t.len() > 0 && (t[0] == '（' || t[0] == '(')
}

/// Line `i` is an action line of the character: within two lines of one of
/// the character's lines, not itself a dialogue line, a scene heading or
/// blank, and either a parenthesised direction or naming the character.
pub open spec fn is_action_line(name: Seq<char>, aliases: Seq<Seq<char>>, ls: Seq<Seq<char>>, i: int) -> bool {
    let line = ls[i];
    &&& exists|j: int| 0 <= j < ls.len() && i - 2 <= j <= i + 2 && #[trigger] spoken_speech(name, aliases, ls[j]) is Some
    &&& dialogue_parse(line) is None
    &&& !is_scene_heading_line(line)
    &&& trim(line).len() > 0
    &&& (paren_start(line) || contains_seq(line, name) || exists|a: int|
        0 <= a < aliases.len() && #[trigger] contains_seq(line, trim(aliases[a])))
}

/// Action lines among the first `k` lines of a segment, as (scene, trimmed line).
pub open spec fn seg_actions_upto(name: Seq<char>, aliases: Seq<Seq<char>>, seg: SegV, k: int) -> Seq<PairV>
    decreases k,
{
    if k <= 0 {
        seq![]
    } else {
        let prev = seg_actions_upto(name, aliases, seg, k - 1);
        let ls = lines(seg.1);
        if is_action_line(name, aliases, ls, k - 1) {
            prev.push((scene_at_spec(seg.1, seg.0, k - 1), trim(ls[k - 1])))
        } else {
            prev
        }
    }
}

pub open spec fn script_lines(name: Seq<char>, aliases: Seq<Seq<char>>, segs: Seq<SegV>, k: int) -> Seq<PairV>
    decreases k,
{
    if k <= 0 {
        seq![]
    } else {
        script_lines(name, aliases, segs, k - 1) + seg_lines_upto(name, aliases, segs[k - 1], lines(segs[k - 1].1).len() as int)
    }
}

pub open spec fn script_actions(name: Seq<char>, aliases: Seq<Seq<char>>, segs: Seq<SegV>, k: int) -> Seq<PairV>
    decreases k,
{
    if k <= 0 {
        seq![]
    } else {
        script_actions(name, aliases, segs, k - 1) + seg_actions_upto(name, aliases, segs[k - 1], lines(segs[k - 1].1).len() as int)
    }
}

fn spoken_chars(name: &[char], aliases: &Vec<Vec<char>>, line: &[char]) -> (r: Option<Vec<char>>)
    ensures
        match r {
            Some(sp) => spoken_speech(name@, seqs_view(aliases@), line@) == Some(sp@),
            None => spoken_speech(name@, seqs_view(aliases@), line@) is None,
        },
{
    match parse_dialogue_chars(line) {
        Some((speaker, speech)) => {
            if name_matches_chars(name, aliases, &speaker) && trimmed(&speech).len() > 0 {
                Some(speech)
            } else {
                None
            }
        },
        None => None,
    }
}

fn mentions_character(name: &[char], aliases: &Vec<Vec<char>>, line: &[char]) -> (r: bool)
    ensures
        r == (contains_seq(line@, name@) || exists|a: int|
            0 <= a < seqs_view(aliases@).len() && #[trigger] contains_seq(line@, trim(seqs_view(aliases@)[a]))),
{
    if contains_chars(line, name) {
        return true;
    }
    let mut i: usize = 0;
    while i < aliases.len()
        invariant
            i <= aliases@.len(),
            forall|a: int| 0 <= a < i ==> !contains_seq(line@, trim(#[trigger] seqs_view(aliases@)[a])),
        decreases aliases@.len() - i,
    {
        let a = trimmed(&aliases[i]);
        if contains_chars(line, &a) {
            assert(contains_seq(line@, trim(seqs_view(aliases@)[i as int])));
            return true;
        }
        i += 1;
    }
    false
}

fn is_paren_start(line: &[char]) -> (r: bool)
    ensures
        r == paren_start(line@),
{
    let (a, _b) = trim_span(line, 0, line.len());
    assert(line@.subrange(0, line@.len() as int) =~= line@);
    let n = line.len();
    assert(line@.subrange(a as int, n as int) =~= trim_start(line@));
    a < n && (line[a] == '（' || line[a] == '(')
}

/// The character's lines and action lines of one segment.
fn segment_evidence(name: &[char], aliases: &Vec<Vec<char>>, seg: &SourceSegment, lines_out: &mut Vec<Dialogue>, actions_out: &mut Vec<ActionLine>)
    ensures
        final(lines_out)@.map_values(|d: Dialogue| dialogue_view(d)) == old(lines_out)@.map_values(|d: Dialogue| dialogue_view(d))
            + seg_lines_upto(name@, seqs_view(aliases@), seg@, lines(seg@.1).len() as int),
        final(actions_out)@.map_values(|a: ActionLine| action_view(a)) == old(actions_out)@.map_values(|a: ActionLine| action_view(a))
            + seg_actions_upto(name@, seqs_view(aliases@), seg@, lines(seg@.1).len() as int),
{
    let ghost al = seqs_view(aliases@);
    let content = chars_of(seg.content.as_str());
    let label = chars_of(seg.label.as_str());
    let spans = line_spans(&content);
    let ghost ls = lines(content@);
    let ghost base = lines_out@.map_values(|d: Dialogue| dialogue_view(d));
    let mut spoken: Vec<bool> = Vec::new();
    let mut i: usize = 0;
    while i < spans.len()
        invariant
            i <= spans@.len(),
            spans_match(content@, spans@, ls),
            ls == lines(content@),
            content@ == seg@.1,
            label@ == seg@.0,
            al == seqs_view(aliases@),
            spoken@.len() == i,
            forall|j: int| 0 <= j < i ==> #[trigger] spoken@[j] == (spoken_speech(name@, al, ls[j]) is Some),
            lines_out@.map_values(|d: Dialogue| dialogue_view(d)) == base + seg_lines_upto(name@, al, seg@, i as int),
        decreases spans@.len() - i,
    {
        let (lo, hi) = spans[i];
        assert(spans@[i as int].0 <= spans@[i as int].1 <= content@.len());
        let line = slice_to_vec(&content, lo, hi);
        assert(line@ == ls[i as int]);
        let ghost prev = lines_out@.map_values(|d: Dialogue| dialogue_view(d));
        match spoken_chars(name, aliases, &line) {
            Some(sp) => {
                let scene = scene_at_chars(&content, &label, i);
                lines_out.push(Dialogue { scene: string_of(&scene), line: string_of(&sp) });
                assert(lines_out@.map_values(|d: Dialogue| dialogue_view(d)) =~= prev.push((scene@, sp@)));
                spoken.push(true);
            },
            None => {
                spoken.push(false);
            },
        }
        i += 1;
    }
    let ghost abase = actions_out@.map_values(|a: ActionLine| action_view(a));
    let n = spans.len();
    let mut k: usize = 0;
    while k < n
        invariant
            k <= n == spans@.len() == spoken@.len(),
            spans_match(content@, spans@, ls),
            ls == lines(content@),
            content@ == seg@.1,
            label@ == seg@.0,
            al == seqs_view(aliases@),
            forall|j: int| 0 <= j < n ==> #[trigger] spoken@[j] == (spoken_speech(name@, al, ls[j]) is Some),
            actions_out@.map_values(|a: ActionLine| action_view(a)) == abase + seg_actions_upto(name@, al, seg@, k as int),
        decreases n - k,
    {
        let (lo, hi) = spans[k];
        assert(spans@[k as int].0 <= spans@[k as int].1 <= content@.len());
        let line = slice_to_vec(&content, lo, hi);
        assert(line@ == ls[k as int]);
        let lo_w = if k >= 2 { k - 2 } else { 0 };
        let hi_w = if n - k >= 3 { k + 3 } else { n };
        let mut near = false;
        let mut w = lo_w;
        while w < hi_w
            invariant
                lo_w <= w <= hi_w <= n == spoken@.len(),
                lo_w == (if k >= 2 { k - 2 } else { 0int }),
                hi_w == (if k + 3 <= n { k + 3 } else { n as int }),
                near == exists|j: int| lo_w <= j < w && #[trigger] spoken@[j],
            decreases hi_w - w,
        {
            if spoken[w] {
                near = true;
            }
            w += 1;
        }
        let ghost near_spec = exists|j: int| 0 <= j < ls.len() && k - 2 <= j <= k + 2 && #[trigger] spoken_speech(name@, al, ls[j]) is Some;
        assert(near == near_spec) by {
            if near {
                let j = choose|j: int| lo_w <= j < hi_w && #[trigger] spoken@[j];
                assert(spoken_speech(name@, al, ls[j]) is Some);
            }
            if near_spec {
                let j = choose|j: int| 0 <= j < ls.len() && k - 2 <= j <= k + 2 && #[trigger] spoken_speech(name@, al, ls[j]) is Some;
                assert(spoken@[j]);
            }
        }
        let ghost prev = actions_out@.map_values(|a: ActionLine| action_view(a));
        if near && parse_dialogue_chars(&line).is_none() && !is_scene_heading(&line) && trimmed(&line).len() > 0
            && (is_paren_start(&line) || mentions_character(name, aliases, &line)) {
            let scene = scene_at_chars(&content, &label, k);
            let text = trimmed(&line);
            actions_out.push(ActionLine { scene: string_of(&scene), text: string_of(&text) });
            assert(actions_out@.map_values(|a: ActionLine| action_view(a)) =~= prev.push((scene@, text@)));
        }
        k += 1;
    }
}

fn script_evidence(name: &[char], aliases: &Vec<Vec<char>>, segments: &[SourceSegment], lines_out: &mut Vec<Dialogue>, actions_out: &mut Vec<ActionLine>)
    ensures
        final(lines_out)@.map_values(|d: Dialogue| dialogue_view(d)) == old(lines_out)@.map_values(|d: Dialogue| dialogue_view(d))
            + script_lines(name@, seqs_view(aliases@), segments@.map_values(|s: SourceSegment| s@), segments@.len() as int),
        final(actions_out)@.map_values(|a: ActionLine| action_view(a)) == old(actions_out)@.map_values(|a: ActionLine| action_view(a))
            + script_actions(name@, seqs_view(aliases@), segments@.map_values(|s: SourceSegment| s@), segments@.len() as int),
{
    let ghost sv = segments@.map_values(|s: SourceSegment| s@);
    let ghost lb = lines_out@.map_values(|d: Dialogue| dialogue_view(d));
    let ghost ab = actions_out@.map_values(|a: ActionLine| action_view(a));
    let mut k: usize = 0;
    while k < segments.len()
        invariant
            k <= segments@.len(),
            sv == segments@.map_values(|s: SourceSegment| s@),
            lines_out@.map_values(|d: Dialogue| dialogue_view(d)) == lb + script_lines(name@, seqs_view(aliases@), sv, k as int),
            actions_out@.map_values(|a: ActionLine| action_view(a)) == ab + script_actions(name@, seqs_view(aliases@), sv, k as int),
        decreases segments@.len() - k,
    {
        segment_evidence(name, aliases, &segments[k], lines_out, actions_out);
        assert(sv[k as int] == segments@[k as int]@);
        k += 1;
    }
}

pub open spec fn is_script(form: Seq<char>) -> bool {
    form == seq!['s', 'c', 'r', 'i', 'p', 't']
}

/// Dialogue lines of the pack before sampling: from the segments in script
/// form, from the notes otherwise.
pub open spec fn pack_raw_lines(name: Seq<char>, aliases: Seq<Seq<char>>, segs: Seq<SegV>, notes: Seq<SegmentNote>, form: Seq<char>) -> Seq<PairV> {
    if is_script(form) {
        script_lines(name, aliases, segs, segs.len() as int)
    } else {
        pack_note_lines(name, aliases, notes, notes.len() as int)
    }
}

/// The evidence pack of one character.
pub fn build_pack(name: &str, aliases: &[String], segments: &[SourceSegment], notes: &[SegmentNote], form: &str) -> (r: EvidencePack)
    ensures
        r.character@ == name@,
        strings_view(r.aliases@) == strings_view(aliases@),
        r.events@.map_values(|e: NoteEvent| event_view(e)) == pack_events(name@, strings_view(aliases@), notes@, notes@.len() as int),
        r.mentions@.map_values(|m: Mention| mention_view(m)) == pack_mentions(name@, strings_view(aliases@), notes@, notes@.len() as int),
        r.relationship_signals@.map_values(|x: RelationshipSignal| relation_view(x)) == pack_relations(name@, strings_view(aliases@), notes@, notes@.len() as int),
        r.actions@.map_values(|a: ActionLine| action_view(a)) == (if is_script(form@) {
            script_actions(name@, strings_view(aliases@), segments@.map_values(|s: SourceSegment| s@), segments@.len() as int)
        } else {
            Seq::<PairV>::empty()
        }),
        ({
            let raw = pack_raw_lines(name@, strings_view(aliases@), segments@.map_values(|s: SourceSegment| s@), notes@, form@);
            &&& r.sampled == (raw.len() > 2000)
            &&& r.dialogues@.map_values(|d: Dialogue| dialogue_view(d)) == (if raw.len() > 2000 { sample_evenly_spec(raw, 400, 40) } else { raw })
        }),
{
    let n = chars_of(name);
    let al = alias_chars(aliases);
    let f = chars_of(form);
    let script_word = vec!['s', 'c', 'r', 'i', 'p', 't'];
    assert(script_word@ =~= seq!['s', 'c', 'r', 'i', 'p', 't']);
    let script = crate::text::chars_eq(&f, &script_word);
    let mut dialogues: Vec<Dialogue> = Vec::new();
    let mut actions: Vec<ActionLine> = Vec::new();
    if script {
        script_evidence(&n, &al, segments, &mut dialogues, &mut actions);
    }
    let mut events: Vec<NoteEvent> = Vec::new();
    let mut mentions: Vec<Mention> = Vec::new();
    let mut relations: Vec<RelationshipSignal> = Vec::new();
    collect_events(&n, &al, notes, &mut events);
    collect_mentions(&n, &al, notes, &mut mentions);
    collect_relations(&n, &al, notes, &mut relations);
    if !script {
        collect_note_lines(&n, &al, notes, &mut dialogues);
    }
    assert(Seq::<PairV>::empty() + Seq::<PairV>::empty() =~= Seq::<PairV>::empty());
    let ghost raw = dialogues@.map_values(|d: Dialogue| dialogue_view(d));
    assert(raw =~= pack_raw_lines(n@, seqs_view(al@), segments@.map_values(|s: SourceSegment| s@), notes@, form@));
    let mut sampled = false;
    if dialogues.len() > DIALOGUE_CORPUS_MAX_LINES {
        dialogues = sample_evenly(&dialogues, DIALOGUE_PUSH_MAX_LINES, DIALOGUE_EDGE_KEEP);
        sampled = true;
    }
    EvidencePack {
        character: string_of(&n),
        aliases: copy_strings(aliases),
        dialogues,
        actions,
        events,
        mentions,
        relationship_signals: relations,
        sampled,
    }
}


/// The character on either side of a relationship signal.
pub open spec fn involves(name: Seq<char>, aliases: Seq<Seq<char>>, x: RelationV) -> bool {
    name_matches_spec(name, aliases, x.0) || name_matches_spec(name, aliases, x.1)
}

proof fn lemma_relations_upto(name: Seq<char>, aliases: Seq<Seq<char>>, rs: Seq<RelationV>, j: int)
    requires
        0 <= j <= rs.len(),
    ensures
        forall|k: int| 0 <= k < relations_upto(name, aliases, rs, j).len() ==> {
            let y = #[trigger] relations_upto(name, aliases, rs, j)[k];
            involves(name, aliases, y) && rs.take(j).contains(y)
        },
        forall|k: int| 0 <= k < j && involves(name, aliases, #[trigger] rs[k])
            ==> relations_upto(name, aliases, rs, j).contains(rs[k]),
    decreases j,
{
    if j > 0 {
        lemma_relations_upto(name, aliases, rs, j - 1);
        let prev = relations_upto(name, aliases, rs, j - 1);
        let cur = relations_upto(name, aliases, rs, j);
        assert(rs.take(j) =~= rs.take(j - 1).push(rs[j - 1]));
        assert forall|k: int| 0 <= k < cur.len() implies {
            let y = #[trigger] cur[k];
            involves(name, aliases, y) && rs.take(j).contains(y)
        } by {
            if k < prev.len() {
                assert(cur[k] == prev[k]);
                let w = choose|w: int| 0 <= w < rs.take(j - 1).len() && #[trigger] rs.take(j - 1)[w] == prev[k];
                assert(rs.take(j)[w] == prev[k]);
            } else {
                assert(rs.take(j)[j - 1] == rs[j - 1]);
            }
        }
        assert forall|k: int| 0 <= k < j && involves(name, aliases, #[trigger] rs[k]) implies cur.contains(rs[k]) by {
            if k < j - 1 {
                let w = choose|w: int| 0 <= w < prev.len() && #[trigger] prev[w] == rs[k];
                assert(cur[w] == rs[k]);
            } else {
                assert(cur[prev.len() as int] == rs[k]);
            }
        }
    }
}

/// Law of the evidence pack: a relationship signal of the notes is in the
/// pack exactly when the character (by name or alias) is on either side of
/// it, whichever side that is, and the pack holds nothing else.
pub proof fn law_pack_relations_either_side(name: Seq<char>, aliases: Seq<Seq<char>>, notes: Seq<SegmentNote>, k: int)
    requires
        0 <= k <= notes.len(),
    ensures
        forall|i: int| 0 <= i < pack_relations(name, aliases, notes, k).len()
            ==> involves(name, aliases, #[trigger] pack_relations(name, aliases, notes, k)[i]),
        forall|n: int, j: int| 0 <= n < k && 0 <= j < note_relations(notes[n]).len()
            && involves(name, aliases, #[trigger] note_relations(notes[n])[j])
            ==> pack_relations(name, aliases, notes, k).contains(note_relations(notes[n])[j]),
    decreases k,
{
    if k > 0 {
        law_pack_relations_either_side(name, aliases, notes, k - 1);
        let prev = pack_relations(name, aliases, notes, k - 1);
        let rs = note_relations(notes[k - 1]);
        let tail = relations_upto(name, aliases, rs, rs.len() as int);
        lemma_relations_upto(name, aliases, rs, rs.len() as int);
        let cur = pack_relations(name, aliases, notes, k);
        assert(cur == prev + tail);
        assert forall|i: int| 0 <= i < cur.len() implies involves(name, aliases, #[trigger] cur[i]) by {
            if i < prev.len() {
                assert(cur[i] == prev[i]);
            } else {
                assert(cur[i] == tail[i - prev.len()]);
            }
        }
        assert forall|n: int, j: int| 0 <= n < k && 0 <= j < note_relations(notes[n]).len()
            && involves(name, aliases, #[trigger] note_relations(notes[n])[j]) implies cur.contains(note_relations(notes[n])[j]) by {
            let x = note_relations(notes[n])[j];
            if n < k - 1 {
                let w = choose|w: int| 0 <= w < prev.len() && #[trigger] prev[w] == x;
                assert(cur[w] == x);
            } else {
                assert(rs[j] == x);
                let w = choose|w: int| 0 <= w < tail.len() && #[trigger] tail[w] == x;
                assert(cur[prev.len() + w] == x);
            }
        }
    }
}
} // verus!
