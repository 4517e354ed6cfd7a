//! The deconstruction task: its record (metadata and progress), the stage
//! machine that the background run and the user's requests move through,
//! and the decisions taken between the steps of the pipeline.

use vstd::prelude::*;
use crate::chunk::SourceSegment;
use crate::evidence::{copy_strings, name_matches, name_matches_spec, strings_view};
use crate::text::{
    chars_of, is_blank, is_ws, push_str_chars, slice_to_vec, str_eq, string_of, trim, trimmed,
};
use crate::verify::{QuoteCite, RemovedQuote, VerifyReport};

verus! {

pub const STAGE_PENDING: &'static str = "pending";
pub const STAGE_PROBING: &'static str = "probing";
pub const STAGE_CHUNKING: &'static str = "chunking";
pub const STAGE_NOTES: &'static str = "notes";
pub const STAGE_EVIDENCE: &'static str = "evidence";
pub const STAGE_GENERATING: &'static str = "generating";
pub const STAGE_VERIFYING: &'static str = "verifying";
pub const STAGE_DONE: &'static str = "done";
pub const STAGE_FAILED: &'static str = "failed";
/// Waiting for the user to pick segments (not running; not resumed on its own).
pub const STAGE_SELECTING: &'static str = "selecting";
/// Stopped by the user (terminal; can be retried from where it stopped).
pub const STAGE_ABORTED: &'static str = "aborted";
/// Stopped by a restart of the daemon (paused until the user resumes it).
pub const STAGE_INTERRUPTED: &'static str = "interrupted";

/// Message of a task paused by a restart.
pub const INTERRUPTED_MESSAGE: &'static str = "应用重启，任务已暂停——点「继续」从断点接着跑";
/// Message of a task stopped by the user.
pub const ABORTED_MESSAGE: &'static str = "已被用户中止";

/// The card files, in generation order.
pub open spec fn generation_files_spec() -> Seq<Seq<char>> {
    seq!["soul"@, "speech_patterns"@, "behavior_guide"@, "relationship_dynamics"@, "key_life_events"@, "limit"@, "index"@]
}

/// The generated card files, in generation order.
pub fn generation_files() -> (r: Vec<&'static str>)
    ensures
        r@.map_values(|s: &'static str| s@) == generation_files_spec(),
{
    let r = vec!["soul", "speech_patterns", "behavior_guide", "relationship_dynamics", "key_life_events", "limit", "index"];
    assert(r@.map_values(|s: &'static str| s@) =~= generation_files_spec());
    r
}

#[derive(Debug, Clone, PartialEq)]
pub struct TaskMeta {
    pub id: String,
    /// Display name chosen by the user (none: the character's name is shown).
    pub title: Option<String>,
    /// Name of the imported material.
    pub source_name: String,
    pub character: String,
    pub aliases: Vec<String>,
    pub created_at: u64,
}

#[derive(Debug, Clone, PartialEq)]
pub struct Progress {
    pub stage: String,
    /// Form of the material (`script` or `prose`), once probed.
    pub form: Option<String>,
    pub segment_count: usize,
    pub notes_done: usize,
    /// Segments whose notes could not be parsed.
    pub notes_failed: Vec<usize>,
    /// Segments whose notes are being produced.
    pub notes_active: Vec<usize>,
    /// Segments whose notes are done.
    pub notes_finished: Vec<usize>,
    /// Card files being generated.
    pub current_files: Vec<String>,
    pub files_done: Vec<String>,
    /// Segments the user selected (none: not chosen yet).
    pub selected: Option<Vec<usize>>,
    /// Stage at which the task was stopped or failed.
    pub last_stage: Option<String>,
    pub verified: Option<VerifyReport>,
    pub error: Option<String>,
    pub saved_character_id: Option<String>,
    pub finished_at: Option<u64>,
}

/// The progress of a task that has not started: every count zero, every list
/// empty, every optional field absent, and the stage blank.
pub open spec fn is_fresh(p: Progress) -> bool {
    &&& p.stage@ == Seq::<char>::empty()
    &&& p.form is None
    &&& p.segment_count == 0
    &&& p.notes_done == 0
    &&& p.notes_failed@.len() == 0
    &&& p.notes_active@.len() == 0
    &&& p.notes_finished@.len() == 0
    &&& p.current_files@.len() == 0
    &&& p.files_done@.len() == 0
    &&& p.selected is None
    &&& p.last_stage is None
    &&& p.verified is None
    &&& p.error is None
    &&& p.saved_character_id is None
    &&& p.finished_at is None
}

impl Default for Progress {
    fn default() -> (r: Progress)
        ensures
            is_fresh(r),
    {
        Progress {
            stage: String::new(),
            form: None,
            segment_count: 0,
            notes_done: 0,
            notes_failed: Vec::new(),
            notes_active: Vec::new(),
            notes_finished: Vec::new(),
            current_files: Vec::new(),
            files_done: Vec::new(),
            selected: None,
            last_stage: None,
            verified: None,
            error: None,
            saved_character_id: None,
            finished_at: None,
        }
    }
}

/// Done, failed or aborted.
pub open spec fn terminal_stage(stage: Seq<char>) -> bool {
    stage == STAGE_DONE@ || stage == STAGE_FAILED@ || stage == STAGE_ABORTED@
}

/// A stage of a running task: set, not terminal, and not one of the two
/// pauses that wait for the user (segment selection, restart).
pub open spec fn running_stage(stage: Seq<char>) -> bool {
    stage.len() > 0 && !terminal_stage(stage) && stage != STAGE_SELECTING@ && stage != STAGE_INTERRUPTED@
}

impl Progress {
    pub fn is_terminal(&self) -> (r: bool)
        ensures
            r == terminal_stage(self.stage@),
    {
        str_eq(&self.stage, STAGE_DONE) || str_eq(&self.stage, STAGE_FAILED) || str_eq(&self.stage, STAGE_ABORTED)
    }

    /// Running: not terminal and not waiting for the user.
    pub fn is_running(&self) -> (r: bool)
        ensures
            r == running_stage(self.stage@),
    {
        let v = chars_of(&self.stage);
        v.len() > 0 && !self.is_terminal() && !str_eq(&self.stage, STAGE_SELECTING) && !str_eq(&self.stage, STAGE_INTERRUPTED)
    }
}

#[derive(Debug, Clone, PartialEq)]
pub struct TaskRecord {
    pub meta: TaskMeta,
    pub progress: Progress,
}

/// The folder of deconstruction tasks, below the configuration folder.
pub fn tasks_root(config_dir: &str) -> (r: String)
    ensures
        r@ == config_dir@ + "/db/deconstruct"@,
{
    let mut v = chars_of(config_dir);
    push_str_chars(&mut v, "/db/deconstruct");
    string_of(&v)
}

/// Marks an interrupted task (the caller then marks the task's
/// pending call logs abandoned): a record on disk in a running stage whose
/// task is not running in this process was cut off by a restart; it is
/// paused at the `interrupted` stage, remembering where it stopped.
pub fn check_interrupted(rec: &mut TaskRecord, running: bool) -> (r: bool)
    ensures
        r == (running_stage(old(rec).progress.stage@) && !running),
        r ==> final(rec).progress.stage@ == STAGE_INTERRUPTED@
            && final(rec).progress.last_stage == Some(old(rec).progress.stage)
            && (final(rec).progress.error matches Some(e) && e@ == INTERRUPTED_MESSAGE@)
            && final(rec).meta == old(rec).meta
            && final(rec).progress.finished_at == old(rec).progress.finished_at
            && final(rec).progress.selected == old(rec).progress.selected,
        !r ==> *final(rec) == *old(rec),
{
    if rec.progress.is_running() && !running {
        rec.progress.last_stage = Some(rec.progress.stage.clone());
        rec.progress.stage = STAGE_INTERRUPTED.to_owned();
        rec.progress.error = Some(INTERRUPTED_MESSAGE.to_owned());
        true
    } else {
        false
    }
}

/// Renames a loaded task record: the trimmed title,
/// or no title when it is blank.
pub fn rename_task(rec: &mut TaskRecord, title: &str)
    ensures
        match final(rec).meta.title {
            Some(t) => trim(title@).len() > 0 && t@ == trim(title@),
            None => trim(title@).len() == 0,
        },
        final(rec).meta.id == old(rec).meta.id,
        final(rec).meta.source_name == old(rec).meta.source_name,
        final(rec).meta.character == old(rec).meta.character,
        final(rec).meta.aliases == old(rec).meta.aliases,
        final(rec).meta.created_at == old(rec).meta.created_at,
        final(rec).progress == old(rec).progress,
{
    if is_blank(title) {
        rec.meta.title = None;
    } else {
        rec.meta.title = Some(trimmed(title));
    }
}

#[derive(Debug, Clone, PartialEq)]
pub struct SegmentInfo {
    /// Position of the segment in the chunking result.
    pub index: usize,
    pub label: String,
    /// Characters of the segment.
    pub chars: usize,
    /// Opening of the segment, whitespace collapsed, first 80 characters.
    pub excerpt: String,
    /// The character (by name or alias) appears in the segment.
    pub has_name: bool,
}

/// The words of `s` (split at whitespace) joined with single spaces, from
/// position `i` on, given that the text so far ends inside a word or not.
pub open spec fn collapse_ws(s: Seq<char>) -> Seq<char>
    decreases s.len(),
{
    if s.len() == 0 {
        seq![]
    } else {
        let rest = collapse_ws(s.drop_last());
        if is_ws(s.last()) {
            rest
        } else if rest.len() > 0 && s.len() >= 2 && is_ws(s[s.len() - 2]) {
            rest.push(' ').push(s.last())
        } else {
            rest.push(s.last())
        }
    }
}

/// The excerpt of a segment: the first 80 characters of the collapsed
/// text, with `…` when it is longer.
pub open spec fn seg_excerpt_spec(content: Seq<char>) -> Seq<char> {
    let t = collapse_ws(content);
    if t.len() > 80 {
        t.take(80).push('\u{2026}')
    } else {
        t
    }
}

fn collapse_ws_exec(s: &[char]) -> (r: Vec<char>)
    ensures
        r@ == collapse_ws(s@),
{
    let mut out: Vec<char> = Vec::new();
    let mut i: usize = 0;
    while i < s.len()
        invariant
            i <= s@.len(),
            out@ == collapse_ws(s@.take(i as int)),
        decreases s@.len() - i,
    {
        let ghost pre = s@.take(i as int);
        assert(s@.take(i + 1).drop_last() =~= pre);
        let c = s[i];
        if crate::text::is_whitespace_char(c) {
        } else if out.len() > 0 && i >= 1 && crate::text::is_whitespace_char(s[i - 1]) {
            out.push(' ');
            out.push(c);
        } else {
            out.push(c);
        }
        i += 1;
    }
    assert(s@.take(s@.len() as int) =~= s@);
    out
}

pub fn seg_excerpt(content: &str) -> (r: String)
    ensures
        r@ == seg_excerpt_spec(content@),
{
    let v = chars_of(content);
    let t = collapse_ws_exec(&v);
    if t.len() > 80 {
        let mut out = slice_to_vec(&t, 0, 80);
        out.push('\u{2026}');
        assert(out@ =~= t@.take(80).push('\u{2026}'));
        string_of(&out)
    } else {
        string_of(&t)
    }
}

pub type SegmentInfoV = (usize, Seq<char>, nat, Seq<char>, bool);

pub open spec fn segment_info_view(s: SegmentInfo) -> SegmentInfoV {
    (s.index, s.label@, s.chars as nat, s.excerpt@, s.has_name)
}

/// The entry of the selection list for segment `i`.
pub open spec fn segment_info_spec(name: Seq<char>, aliases: Seq<Seq<char>>, i: usize, seg: SourceSegment) -> SegmentInfoV {
    (i, seg.label@, seg.content@.len(), seg_excerpt_spec(seg.content@), name_matches_spec(name, aliases, seg.content@))
}

/// The list of segments offered for selection (written before the task
/// waits at the selection stage).
pub fn segment_infos(meta: &TaskMeta, segments: &[SourceSegment]) -> (r: Vec<SegmentInfo>)
    ensures
        r@.len() == segments@.len(),
        forall|i: int| 0 <= i < segments@.len() ==> #[trigger] segment_info_view(r@[i])
            == segment_info_spec(meta.character@, strings_view(meta.aliases@), i as usize, segments@[i]),
{
    let mut out: Vec<SegmentInfo> = Vec::new();
    let mut i: usize = 0;
    while i < segments.len()
        invariant
            i <= segments@.len(),
            out@.len() == i,
            forall|k: int| 0 <= k < i ==> #[trigger] segment_info_view(out@[k])
                == segment_info_spec(meta.character@, strings_view(meta.aliases@), k as usize, segments@[k]),
        decreases segments@.len() - i,
    {
        let seg = &segments[i];
        let v = chars_of(&seg.content);
        out.push(SegmentInfo {
            index: i,
            label: seg.label.clone(),
            chars: v.len(),
            excerpt: seg_excerpt(&seg.content),
            has_name: name_matches(&meta.character, &meta.aliases, &seg.content),
        });
        i += 1;
    }
    out
}

pub struct CreateParams {
    pub source_name: String,
    pub content: String,
    pub character: String,
    pub aliases: Vec<String>,
    /// Segments chosen in advance (a copied task); none: stop at the selection.
    pub selected: Option<Vec<usize>>,
}

/// The aliases kept: trimmed, without blanks and without the character's name.
pub open spec fn kept_aliases(aliases: Seq<Seq<char>>, character: Seq<char>) -> Seq<Seq<char>>
    decreases aliases.len(),
{
    if aliases.len() == 0 {
        seq![]
    } else {
        let rest = kept_aliases(aliases.drop_last(), character);
        let a = trim(aliases.last());
        if a.len() > 0 && a != character {
            rest.push(a)
        } else {
            rest
        }
    }
}

pub open spec fn selection_view(o: Option<Vec<usize>>) -> Option<Seq<usize>> {
    match o {
        Some(v) => Some(v@),
        None => None,
    }
}

/// Name of material imported without one.
pub const UNNAMED_SOURCE: &'static str = "未命名素材";

/// The record of a new task (the caller writes the source
/// and the record, then starts the run): refused when the content or the
/// character name is blank.
pub fn new_task_record(params: &CreateParams, id: String, now: u64) -> (r: Result<TaskRecord, String>)
    ensures
        match r {
            Err(e) => (trim(params.content@).len() == 0 && e@ == "剧本内容为空"@)
                || (trim(params.content@).len() > 0 && trim(params.character@).len() == 0 && e@ == "角色名不能为空"@),
            Ok(rec) => trim(params.content@).len() > 0 && trim(params.character@).len() > 0
                && rec.meta.id == id
                && rec.meta.title is None
                && rec.meta.source_name@ == (if trim(params.source_name@).len() == 0 {
                    UNNAMED_SOURCE@
                } else {
                    trim(params.source_name@)
                })
                && rec.meta.character@ == trim(params.character@)
                && strings_view(rec.meta.aliases@) == kept_aliases(strings_view(params.aliases@), trim(params.character@))
                && rec.meta.created_at == now
                && rec.progress.stage@ == STAGE_PENDING@
                && selection_view(rec.progress.selected) == selection_view(params.selected)
                && ({
                    let p = rec.progress;
                    &&& p.form is None && p.segment_count == 0 && p.notes_done == 0
                    &&& p.notes_failed@.len() == 0 && p.notes_active@.len() == 0 && p.notes_finished@.len() == 0
                    &&& p.current_files@.len() == 0 && p.files_done@.len() == 0
                    &&& p.last_stage is None && p.verified is None && p.error is None
                    &&& p.saved_character_id is None && p.finished_at is None
                }),
        },
{
    if is_blank(&params.content) {
        return Err("剧本内容为空".to_owned());
    }
    if is_blank(&params.character) {
        return Err("角色名不能为空".to_owned());
    }
    let character = trimmed(&params.character);
    let cv = chars_of(&character);
    let mut aliases: Vec<String> = Vec::new();
    let mut i: usize = 0;
    while i < params.aliases.len()
        invariant
            i <= params.aliases@.len(),
            cv@ == trim(params.character@),
            strings_view(aliases@) == kept_aliases(strings_view(params.aliases@).take(i as int), cv@),
        decreases params.aliases@.len() - i,
    {
        let a = trimmed(&params.aliases[i]);
        let av = chars_of(&a);
        assert(strings_view(params.aliases@).take(i + 1).drop_last() =~= strings_view(params.aliases@).take(i as int));
        assert(strings_view(params.aliases@).take(i + 1).last() == params.aliases@[i as int]@);
        if av.len() > 0 && !crate::text::chars_eq(&av, &cv) {
            let ghost prev = aliases@;
            aliases.push(a);
            assert(strings_view(aliases@) =~= strings_view(prev).push(av@));
        }
        i += 1;
    }
    assert(strings_view(params.aliases@).take(params.aliases@.len() as int) =~= strings_view(params.aliases@));
    let source_name = if is_blank(&params.source_name) {
        UNNAMED_SOURCE.to_owned()
    } else {
        trimmed(&params.source_name)
    };
    let mut progress = Progress::default();
    progress.stage = STAGE_PENDING.to_owned();
    progress.selected = match &params.selected {
        Some(v) => Some(v.clone()),
        None => None,
    };
    proof {
        match &params.selected {
            Some(v) => assert(progress.selected.unwrap()@ =~= v@),
            None => {},
        }
    }
    Ok(TaskRecord {
        meta: TaskMeta { id, title: None, source_name, character, aliases, created_at: now },
        progress,
    })
}

/// A selection in normal form: strictly increasing, holding exactly the
/// requested positions below `count`.
pub open spec fn normalized_selection(input: Seq<usize>, count: usize, r: Seq<usize>) -> bool {
    &&& forall|i: int, j: int| 0 <= i < j < r.len() ==> r[i] < r[j]
    &&& forall|x: usize| r.contains(x) <==> (input.contains(x) && x < count)
}

fn insert_sorted(v: &mut Vec<usize>, x: usize)
    requires
        forall|i: int, j: int| 0 <= i < j < old(v)@.len() ==> old(v)@[i] < old(v)@[j],
    ensures
        forall|i: int, j: int| 0 <= i < j < final(v)@.len() ==> final(v)@[i] < final(v)@[j],
        forall|y: usize| final(v)@.contains(y) <==> (old(v)@.contains(y) || y == x),
{
    let mut p: usize = 0;
    while p < v.len() && v[p] < x
        invariant
            p <= v@.len(),
            v@ == old(v)@,
            forall|i: int, j: int| 0 <= i < j < v@.len() ==> v@[i] < v@[j],
            forall|i: int| 0 <= i < p ==> v@[i] < x,
        decreases v@.len() - p,
    {
        p += 1;
    }
    if p < v.len() && v[p] == x {
        assert forall|y: usize| v@.contains(y) <==> (old(v)@.contains(y) || y == x) by {
            if y == x {
                assert(v@[p as int] == x);
            }
        }
        return;
    }
    let ghost before = v@;
    assert(before == old(v)@);
    v.insert(p, x);
    assert(v@ =~= before.take(p as int).push(x) + before.skip(p as int));
    assert forall|i: int, j: int| 0 <= i < j < v@.len() implies v@[i] < v@[j] by {
        if j < p {
            assert(v@[i] == before[i] && v@[j] == before[j]);
        } else if j == p {
            assert(v@[i] == before[i]);
        } else if i == p {
            assert(v@[j] == before[j - 1]);
            assert(before[p as int] >= x);
            if j - 1 > p {
                assert(before[p as int] < before[j - 1]);
            }
        } else if i < p {
            assert(v@[i] == before[i] && v@[j] == before[j - 1]);
        } else {
            assert(v@[i] == before[i - 1] && v@[j] == before[j - 1]);
        }
    }
    assert forall|y: usize| v@.contains(y) <==> (before.contains(y) || y == x) by {
        if v@.contains(y) {
            let k = choose|k: int| 0 <= k < v@.len() && v@[k] == y;
            if k < p {
                assert(before[k] == y);
            } else if k > p {
                assert(before[k - 1] == y);
            }
        }
        if before.contains(y) {
            let k = choose|k: int| 0 <= k < before.len() && before[k] == y;
            if k < p {
                assert(v@[k] == y);
            } else {
                assert(v@[k + 1] == y);
            }
        }
        if y == x {
            assert(v@[p as int] == x);
        }
    }
    assert(forall|y: usize| #[trigger] v@.contains(y) <==> (old(v)@.contains(y) || y == x));
}

/// The requested segments below `count`, sorted, without repeats.
pub fn normalize_selection(input: &[usize], count: usize) -> (r: Vec<usize>)
    ensures
        normalized_selection(input@, count, r@),
{
    let mut r: Vec<usize> = Vec::new();
    let mut i: usize = 0;
    while i < input.len()
        invariant
            i <= input@.len(),
            forall|a: int, b: int| 0 <= a < b < r@.len() ==> r@[a] < r@[b],
            forall|x: usize| r@.contains(x) <==> (input@.take(i as int).contains(x) && x < count),
        decreases input@.len() - i,
    {
        let x = input[i];
        let ghost prev = r@;
        if x < count {
            insert_sorted(&mut r, x);
        }
        assert forall|y: usize| r@.contains(y) <==> (input@.take(i + 1).contains(y) && y < count) by {
            if input@.take(i + 1).contains(y) {
                let k = choose|k: int| 0 <= k < i + 1 && #[trigger] input@.take(i + 1)[k] == y;
                if k < i {
                    assert(input@.take(i as int)[k] == y);
                }
            }
            if input@.take(i as int).contains(y) {
                let k = choose|k: int| 0 <= k < i && #[trigger] input@.take(i as int)[k] == y;
                assert(input@.take(i + 1)[k] == y);
            }
            if y == x {
                assert(input@.take(i + 1)[i as int] == x);
            }
        }
        i += 1;
    }
    assert(input@.take(input@.len() as int) =~= input@);
    r
}

/// A new segment selection for a loaded record
/// (the caller writes the record and starts the run on `Ok`).
pub fn select_segments(rec: &mut TaskRecord, selected: &[usize], running: bool) -> (r: Result<(), String>)
    ensures
        match r {
            Err(e) => *final(rec) == *old(rec) && (
                (running && e@ == "任务运行中，请稍候"@)
                || (!running && old(rec).progress.stage@ != STAGE_SELECTING@ && e@ == "任务不在待选择状态"@)
                || (!running && old(rec).progress.stage@ == STAGE_SELECTING@
                    && (forall|x: usize| selected@.contains(x) ==> x >= old(rec).progress.segment_count)
                    && e@ == "至少选择一段"@)),
            Ok(()) => !running && old(rec).progress.stage@ == STAGE_SELECTING@
                && (final(rec).progress.selected matches Some(s)
                    && s@.len() > 0
                    && normalized_selection(selected@, old(rec).progress.segment_count, s@))
                && final(rec).progress.stage@ == STAGE_PENDING@
                && final(rec).meta == old(rec).meta
                && final(rec).progress.segment_count == old(rec).progress.segment_count,
        },
{
    if running {
        return Err("任务运行中，请稍候".to_owned());
    }
    if !str_eq(&rec.progress.stage, STAGE_SELECTING) {
        return Err("任务不在待选择状态".to_owned());
    }
    let s = normalize_selection(selected, rec.progress.segment_count);
    if s.len() == 0 {
        assert forall|x: usize| selected@.contains(x) implies x >= old(rec).progress.segment_count by {
            if x < old(rec).progress.segment_count {
                assert(!s@.contains(x));
            }
        }
        return Err("至少选择一段".to_owned());
    }
    rec.progress.selected = Some(s);
    rec.progress.stage = STAGE_PENDING.to_owned();
    Ok(())
}

/// Resuming a loaded record: a task
/// that is not done, not waiting for a selection and not running resumes
/// from the pending stage, with its error and finish time cleared.
pub fn retry_task(rec: &mut TaskRecord, running: bool) -> (r: Result<(), String>)
    ensures
        match r {
            Err(e) => *final(rec) == *old(rec) && (
                (running && e@ == "任务运行中"@)
                || (!running && old(rec).progress.stage@ == STAGE_DONE@ && e@ == "任务已完成，无需重试"@)
                || (!running && old(rec).progress.stage@ == STAGE_SELECTING@ && e@ == "任务等待用户选择段落，无需重试"@)
                || (!running && old(rec).progress.stage@ != STAGE_DONE@ && old(rec).progress.stage@ != STAGE_SELECTING@
                    && running_stage(old(rec).progress.stage@)
                    && e@ == "任务状态不一致（磁盘运行态但不在运行表），请删除后重新制作"@)),
            Ok(()) => !running && old(rec).progress.stage@ != STAGE_DONE@ && old(rec).progress.stage@ != STAGE_SELECTING@
                && !running_stage(old(rec).progress.stage@)
                && final(rec).progress.stage@ == STAGE_PENDING@
                && final(rec).progress.error is None
                && final(rec).progress.finished_at is None
                && final(rec).meta == old(rec).meta
                && final(rec).progress.selected == old(rec).progress.selected
                && final(rec).progress.last_stage == old(rec).progress.last_stage,
        },
{
    if running {
        return Err("任务运行中".to_owned());
    }
    if str_eq(&rec.progress.stage, STAGE_DONE) {
        return Err("任务已完成，无需重试".to_owned());
    }
    if str_eq(&rec.progress.stage, STAGE_SELECTING) {
        return Err("任务等待用户选择段落，无需重试".to_owned());
    }
    if rec.progress.is_running() {
        return Err("任务状态不一致（磁盘运行态但不在运行表），请删除后重新制作".to_owned());
    }
    rec.progress.error = None;
    rec.progress.finished_at = None;
    rec.progress.stage = STAGE_PENDING.to_owned();
    Ok(())
}

/// Aborting a running task's record:
/// aborted at `now`, remembering the stage it was in.
pub fn abort_task(rec: &mut TaskRecord, now: u64)
    ensures
        final(rec).progress.stage@ == STAGE_ABORTED@,
        final(rec).progress.last_stage == Some(old(rec).progress.stage),
        final(rec).progress.error matches Some(e) && e@ == ABORTED_MESSAGE@,
        final(rec).progress.finished_at == Some(now),
        final(rec).meta == old(rec).meta,
        final(rec).progress.selected == old(rec).progress.selected,
{
    rec.progress.last_stage = Some(rec.progress.stage.clone());
    rec.progress.stage = STAGE_ABORTED.to_owned();
    rec.progress.error = Some(ABORTED_MESSAGE.to_owned());
    rec.progress.finished_at = Some(now);
}

/// How a run of the pipeline ended.
pub enum RunOutcome {
    /// The pipeline returned normally.
    Finished,
    /// The pipeline stopped with this message.
    Failed(String),
}

/// The record after the pipeline returns: a run
/// that stopped at the selection stage is left paused; any other normal end
/// is done at `now`; a failure is recorded with the stage it happened in.
pub fn finish_run(rec: &mut TaskRecord, outcome: RunOutcome, now: u64)
    ensures
        match outcome {
            RunOutcome::Finished => if old(rec).progress.stage@ == STAGE_SELECTING@ {
                *final(rec) == *old(rec)
            } else {
                final(rec).progress.stage@ == STAGE_DONE@ && final(rec).progress.finished_at == Some(now)
                    && final(rec).progress.error == old(rec).progress.error
                    && final(rec).progress.last_stage == old(rec).progress.last_stage
            },
            RunOutcome::Failed(m) => final(rec).progress.stage@ == STAGE_FAILED@
                && final(rec).progress.last_stage == Some(old(rec).progress.stage)
                && final(rec).progress.error == Some(m)
                && final(rec).progress.finished_at == Some(now),
        },
        final(rec).meta == old(rec).meta,
        final(rec).progress.selected == old(rec).progress.selected,
{
    match outcome {
        RunOutcome::Finished => {
            if !str_eq(&rec.progress.stage, STAGE_SELECTING) {
                rec.progress.stage = STAGE_DONE.to_owned();
                rec.progress.finished_at = Some(now);
            }
        },
        RunOutcome::Failed(m) => {
            rec.progress.last_stage = Some(rec.progress.stage.clone());
            rec.progress.stage = STAGE_FAILED.to_owned();
            rec.progress.error = Some(m);
            rec.progress.finished_at = Some(now);
        },
    }
}

/// After a run the record on disk is kept when the user aborted the task
/// meanwhile (and the run itself did not end aborted).
pub fn aborted_meanwhile(on_disk_stage: &str, run_stage: &str) -> (r: bool)
    ensures
        r == (on_disk_stage@ == STAGE_ABORTED@ && run_stage@ != STAGE_ABORTED@),
{
    str_eq(on_disk_stage, STAGE_ABORTED) && !str_eq(run_stage, STAGE_ABORTED)
}

/// Card file `name` is generated: listed once among the done files and no
/// longer among the current ones.
pub fn mark_done(progress: &mut Progress, name: &str)
    ensures
        strings_view(final(progress).files_done@) == (if strings_view(old(progress).files_done@).contains(name@) {
            strings_view(old(progress).files_done@)
        } else {
            strings_view(old(progress).files_done@).push(name@)
        }),
        strings_view(final(progress).current_files@) == strings_view(old(progress).current_files@).filter(|f: Seq<char>| f != name@),
        final(progress).stage == old(progress).stage,
{
    let nv = chars_of(name);
    let mut found = false;
    let mut i: usize = 0;
    while i < progress.files_done.len()
        invariant
            i <= progress.files_done@.len(),
            nv@ == name@,
            found == strings_view(progress.files_done@).take(i as int).contains(name@),
        decreases progress.files_done@.len() - i,
    {
        let ghost t = strings_view(progress.files_done@).take(i as int);
        assert(strings_view(progress.files_done@).take(i + 1) =~= t.push(progress.files_done@[i as int]@));
        let fv = chars_of(&progress.files_done[i]);
        if crate::text::chars_eq(&fv, &nv) {
            found = true;
        }
        proof {
            let t2 = t.push(progress.files_done@[i as int]@);
            if t.contains(name@) {
                let k = choose|k: int| 0 <= k < t.len() && t[k] == name@;
                assert(t2[k] == name@);
            }
            if t2.contains(name@) && !t.contains(name@) {
                let k = choose|k: int| 0 <= k < t2.len() && t2[k] == name@;
                if k < t.len() {
                    assert(t[k] == name@);
                }
            }
            if fv@ == name@ {
                assert(t2[i as int] == name@);
            }
        }
        i += 1;
    }
    assert(strings_view(progress.files_done@).take(progress.files_done@.len() as int) =~= strings_view(progress.files_done@));
    if !found {
        let ghost prev = progress.files_done@;
        progress.files_done.push(name.to_owned());
        assert(strings_view(progress.files_done@) =~= strings_view(prev).push(name@));
    }
    let mut kept: Vec<String> = Vec::new();
    let mut j: usize = 0;
    let ghost cur = strings_view(progress.current_files@);
    while j < progress.current_files.len()
        invariant
            j <= progress.current_files@.len(),
            nv@ == name@,
            cur == strings_view(progress.current_files@),
            strings_view(kept@) == cur.take(j as int).filter(|f: Seq<char>| f != name@),
        decreases progress.current_files@.len() - j,
    {
        let fv = chars_of(&progress.current_files[j]);
        assert(cur.take(j + 1).drop_last() =~= cur.take(j as int));
        reveal(Seq::filter);
        if !crate::text::chars_eq(&fv, &nv) {
            let ghost prev = kept@;
            kept.push(progress.current_files[j].clone());
            assert(strings_view(kept@) =~= strings_view(prev).push(fv@));
        }
        j += 1;
    }
    assert(cur.take(cur.len() as int) =~= cur);
    progress.current_files = kept;
}

/// `verify` stage, the settling of one card file after its quotes were
/// checked: quotes that passed, the removed ones, and the text without the
/// quote marks of the removed ones.
pub fn settle_quotes(file: &str, text: &str, failed: &[QuoteCite]) -> (r: (usize, Vec<RemovedQuote>, String))
    ensures
        failed@.len() == 0 ==> r.0 == crate::verify::quotes_from(text@, 0).len() && r.1@.len() == 0 && r.2@ == text@,
        failed@.len() > 0 ==> r.0 == (if crate::verify::quotes_from(text@, 0).len() >= failed@.len() {
                crate::verify::quotes_from(text@, 0).len() - failed@.len()
            } else {
                0
            })
            && r.1@.len() == failed@.len()
            && r.2@ == crate::verify::strip_upto(text@, failed@.map_values(|c: QuoteCite| crate::verify::cite_view(c)),
                "（引文未在原文定位，已去除引号）"@, failed@.len() as int)
            && (forall|k: int| 0 <= k < failed@.len() ==> (#[trigger] r.1@[k]).file@ == file@
                && r.1@[k].quote@ == failed@[k].quote@ && r.1@[k].unit@ == failed@[k].unit@),
{
    let quotes = crate::verify::extract_quotes(text);
    if failed.len() == 0 {
        return (quotes.len(), Vec::new(), text.to_owned());
    }
    let passed = if quotes.len() >= failed.len() { quotes.len() - failed.len() } else { 0 };
    let mut removed: Vec<RemovedQuote> = Vec::new();
    let mut k: usize = 0;
    while k < failed.len()
        invariant
            k <= failed@.len(),
            removed@.len() == k,
            forall|m: int| 0 <= m < k ==> (#[trigger] removed@[m]).file@ == file@
                && removed@[m].quote@ == failed@[m].quote@ && removed@[m].unit@ == failed@[m].unit@,
        decreases failed@.len() - k,
    {
        removed.push(RemovedQuote { file: file.to_owned(), quote: failed[k].quote.clone(), unit: failed[k].unit.clone() });
        k += 1;
    }
    let stripped = crate::verify::strip_failed_quotes(text, failed);
    (passed, removed, stripped)
}

/// Summary of a call log (lengths only; the texts are read one by one).
#[derive(Debug, Clone, PartialEq)]
pub struct LogSummary {
    pub seq: u32,
    pub node: String,
    pub detail: String,
    pub segment: Option<usize>,
    pub ok: Option<bool>,
    /// The call was in flight when the task stopped; its result never came back.
    pub abandoned: bool,
    pub at: u64,
    pub elapsed_ms: u64,
    pub request_chars: usize,
    pub response_chars: usize,
    pub error: Option<String>,
    pub attempt_count: usize,
    pub input_tokens: Option<u64>,
    pub output_tokens: Option<u64>,
    pub cache_read: Option<u64>,
    pub cache_hit_rate: Option<u32>,
    pub has_thinking: bool,
}

#[derive(Debug, Clone, PartialEq)]
pub struct CreateTaskRequest {
    pub source_name: String,
    pub content: String,
    pub character: String,
    pub aliases: Vec<String>,
}

/// A task as listed.
#[derive(Debug, Clone, PartialEq)]
pub struct TaskSummary {
    pub id: String,
    pub title: Option<String>,
    pub source_name: String,
    pub character: String,
    pub stage: String,
    pub created_at: u64,
    pub finished_at: Option<u64>,
    pub segment_count: usize,
    pub notes_done: usize,
    pub error: Option<String>,
    pub saved_character_id: Option<String>,
}

impl TaskSummary {
    /// The list entry of a task record.
    pub fn from_record(r: &TaskRecord) -> (s: TaskSummary)
        ensures
            s.id == r.meta.id,
            s.title == r.meta.title,
            s.source_name == r.meta.source_name,
            s.character == r.meta.character,
            s.stage == r.progress.stage,
            s.created_at == r.meta.created_at,
            s.finished_at == r.progress.finished_at,
            s.segment_count == r.progress.segment_count,
            s.notes_done == r.progress.notes_done,
            s.error == r.progress.error,
            s.saved_character_id == r.progress.saved_character_id,
    {
        TaskSummary {
            id: r.meta.id.clone(),
            title: crate::llm::clone_opt_string(&r.meta.title),
            source_name: r.meta.source_name.clone(),
            character: r.meta.character.clone(),
            stage: r.progress.stage.clone(),
            created_at: r.meta.created_at,
            finished_at: r.progress.finished_at,
            segment_count: r.progress.segment_count,
            notes_done: r.progress.notes_done,
            error: crate::llm::clone_opt_string(&r.progress.error),
            saved_character_id: crate::llm::clone_opt_string(&r.progress.saved_character_id),
        }
    }
}

#[derive(Debug, Clone, PartialEq)]
pub struct TaskListResponse {
    pub tasks: Vec<TaskSummary>,
}

#[derive(Debug, Clone, PartialEq)]
pub struct CardFileDto {
    pub name: String,
    pub body: String,
}

#[derive(Debug, Clone, PartialEq)]
pub struct SegmentInfoDto {
    pub index: usize,
    pub label: String,
    pub chars: usize,
    pub excerpt: String,
    pub has_name: bool,
}

#[derive(Debug, Clone, PartialEq)]
pub struct TaskDetail {
    pub id: String,
    pub title: Option<String>,
    pub source_name: String,
    pub character: String,
    pub aliases: Vec<String>,
    pub created_at: u64,
    pub progress: Progress,
    pub segments: Vec<SegmentInfoDto>,
    pub files: Vec<CardFileDto>,
}

#[derive(Debug, Clone, PartialEq)]
pub struct SaveTaskResponse {
    pub character_id: String,
}

#[derive(Debug, Clone, PartialEq)]
pub struct SelectSegmentsRequest {
    pub selected: Vec<usize>,
}

#[derive(Debug, Clone, PartialEq)]
pub struct TaskSourceResponse {
    pub source_name: String,
    pub character: String,
    pub aliases: Vec<String>,
    pub content: String,
}

#[derive(Debug, Clone, PartialEq)]
pub struct LogListResponse {
    pub logs: Vec<LogSummary>,
}

#[derive(Debug, Clone, PartialEq)]
pub struct RenameTaskRequest {
    /// New display name; blank clears it.
    pub title: String,
}

/// The checks made before a task folder is
/// removed (the caller then checks that the folder exists).
pub fn check_delete(id: &str, running: bool) -> (r: Result<(), String>)
    ensures
        match r {
            Ok(()) => !running && crate::paths::id_ok(id@),
            Err(e) => (running && e@ == "任务运行中，暂不能删除"@)
                || (!running && !crate::paths::id_ok(id@) && e@ == "非法的任务 id"@),
        },
{
    if running {
        return Err("任务运行中，暂不能删除".to_owned());
    }
    if !crate::paths::valid_task_id(id) {
        return Err("非法的任务 id".to_owned());
    }
    Ok(())
}

/// The check made before a task's cards are saved to the library: only a
/// finished task has cards to save.
pub fn check_save(rec: &TaskRecord) -> (r: Result<(), String>)
    ensures
        r is Ok <==> rec.progress.stage@ == STAGE_DONE@,
        r matches Err(e) ==> e@ == "任务未完成，尚无产物可保存"@,
{
    if !str_eq(&rec.progress.stage, STAGE_DONE) {
        return Err("任务未完成，尚无产物可保存".to_owned());
    }
    Ok(())
}

/// What `format!("{:?}", s)` writes for a string: the string in double
/// quotes with the escapes of `char::escape_debug`.
pub uninterp spec fn debug_str(s: Seq<char>) -> Seq<char>;

/// `format!("{:?}", s)`. The escaping is named, not described; of the
/// result only the surrounding double quotes are stated.
#[verifier::external_body]
fn debug_quoted(s: &str) -> (r: String)
    ensures
        r@ == debug_str(s@),
        r@.len() >= 2 && r@[0] == '"' && r@.last() == '"',
{
    format!("{:?}", s)
}

/// `name1, name2, …` of the quoted aliases.
pub open spec fn quoted_list(aliases: Seq<Seq<char>>) -> Seq<char>
    decreases aliases.len(),
{
    if aliases.len() == 0 {
        seq![]
    } else if aliases.len() == 1 {
        debug_str(aliases[0])
    } else {
        quoted_list(aliases.drop_last()) + ", "@ + debug_str(aliases.last())
    }
}

/// The frontmatter of the `index.md` of a deep card (written by the
/// program, not by the model).
pub open spec fn index_frontmatter_spec(character: Seq<char>, source_name: Seq<char>, aliases: Seq<Seq<char>>, form: Seq<char>) -> Seq<char> {
    let alias_line = if aliases.len() == 0 {
        Seq::<char>::empty()
    } else {
        "aliases: ["@ + quoted_list(aliases) + "]\n"@
    };
    "---\nshiro_asset: character\ndepth: full\nname: "@ + debug_str(character) + "\n"@ + alias_line
        + "source_work:\n  title: "@ + debug_str(source_name) + "\n  form: "@ + form + "\ntags: [拆书]\n---\n"@
}

/// The frontmatter of the generated `index.md`.
pub fn index_frontmatter(meta: &TaskMeta, form: &str) -> (r: String)
    ensures
        r@ == index_frontmatter_spec(meta.character@, meta.source_name@, strings_view(meta.aliases@), form@),
{
    let mut v: Vec<char> = Vec::new();
    push_str_chars(&mut v, "---\nshiro_asset: character\ndepth: full\nname: ");
    let c = debug_quoted(&meta.character);
    push_str_chars(&mut v, &c);
    push_str_chars(&mut v, "\n");
    let ghost head = v@;
    let ghost av = strings_view(meta.aliases@);
    if meta.aliases.len() > 0 {
        push_str_chars(&mut v, "aliases: [");
        let ghost start = v@;
        let mut i: usize = 0;
        while i < meta.aliases.len()
            invariant
                i <= meta.aliases@.len(),
                av == strings_view(meta.aliases@),
                v@ == start + quoted_list(av.take(i as int)),
            decreases meta.aliases@.len() - i,
        {
            let ghost prev = v@;
            if i > 0 {
                push_str_chars(&mut v, ", ");
            }
            let q = debug_quoted(&meta.aliases[i]);
            push_str_chars(&mut v, &q);
            proof {
                let t = av.take(i + 1);
                assert(t.drop_last() =~= av.take(i as int));
                assert(t.last() == meta.aliases@[i as int]@);
                if i == 0 {
                    assert(av.take(0) =~= Seq::<Seq<char>>::empty());
                    assert(v@ =~= start + quoted_list(t));
                } else {
                    assert(v@ =~= start + quoted_list(t));
                }
            }
            i += 1;
        }
        assert(av.take(av.len() as int) =~= av);
        push_str_chars(&mut v, "]\n");
    }
    push_str_chars(&mut v, "source_work:\n  title: ");
    let sn = debug_quoted(&meta.source_name);
    push_str_chars(&mut v, &sn);
    push_str_chars(&mut v, "\n  form: ");
    push_str_chars(&mut v, form);
    push_str_chars(&mut v, "\ntags: [拆书]\n---\n");
    string_of(&v)
}

// ---- laws ----

proof fn lemma_stage_literals()
    ensures
        STAGE_INTERRUPTED@ != STAGE_DONE@,
        STAGE_INTERRUPTED@ != STAGE_FAILED@,
        STAGE_INTERRUPTED@ != STAGE_ABORTED@,
        STAGE_INTERRUPTED@ != STAGE_SELECTING@,
        STAGE_INTERRUPTED@.len() > 0,
        STAGE_ABORTED@.len() > 0,
        STAGE_PENDING@ != STAGE_DONE@,
        STAGE_PENDING@ != STAGE_FAILED@,
        STAGE_PENDING@ != STAGE_ABORTED@,
        STAGE_PENDING@ != STAGE_SELECTING@,
        STAGE_PENDING@ != STAGE_INTERRUPTED@,
        STAGE_PENDING@.len() > 0,
{
    reveal_strlit("interrupted");
    reveal_strlit("done");
    reveal_strlit("failed");
    reveal_strlit("aborted");
    reveal_strlit("selecting");
    reveal_strlit("pending");
    assert(STAGE_INTERRUPTED@.len() != STAGE_DONE@.len());
    assert(STAGE_INTERRUPTED@.len() != STAGE_FAILED@.len());
    assert(STAGE_INTERRUPTED@[0] != STAGE_ABORTED@[0]);
    assert(STAGE_INTERRUPTED@[0] != STAGE_SELECTING@[0]);
    assert(STAGE_PENDING@.len() != STAGE_DONE@.len());
    assert(STAGE_PENDING@[0] != STAGE_FAILED@[0]);
    assert(STAGE_PENDING@[0] != STAGE_ABORTED@[0]);
    assert(STAGE_PENDING@[0] != STAGE_SELECTING@[0]);
    assert(STAGE_PENDING@[0] != STAGE_INTERRUPTED@[0]);
}

/// Law of the stage machine: a task paused by a restart is neither running
/// nor finished, so the restart check leaves it alone the next time, and
/// `retry_task` resumes it (when it is not running) at the pending stage,
/// which is a running stage.
pub proof fn law_interrupted_task_resumes()
    ensures
        !running_stage(STAGE_INTERRUPTED@),
        !terminal_stage(STAGE_INTERRUPTED@),
        STAGE_INTERRUPTED@ != STAGE_DONE@,
        STAGE_INTERRUPTED@ != STAGE_SELECTING@,
        running_stage(STAGE_PENDING@),
{
    lemma_stage_literals();
}

/// Law of the stage machine: an aborted task is finished and not running.
pub proof fn law_aborted_is_terminal()
    ensures
        terminal_stage(STAGE_ABORTED@),
        !running_stage(STAGE_ABORTED@),
{
}

/// Law of the stage machine: no stage is both running and finished.
pub proof fn law_running_not_terminal(stage: Seq<char>)
    ensures
        !(running_stage(stage) && terminal_stage(stage)),
{
}

/// Law of segment selection: the selection is sorted without repeats and
/// only names existing segments.
pub proof fn law_selection_in_range(input: Seq<usize>, count: usize, r: Seq<usize>)
    requires
        normalized_selection(input, count, r),
    ensures
        forall|i: int| 0 <= i < r.len() ==> r[i] < count,
        forall|i: int, j: int| 0 <= i < j < r.len() ==> r[i] != r[j],
{
    assert forall|i: int| 0 <= i < r.len() implies r[i] < count by {
        assert(r.contains(r[i]));
    }
}

/// Law of the selection list: a segment preview holds at most 80
/// characters and the ellipsis.
pub proof fn law_seg_excerpt_bounded(content: Seq<char>)
    ensures
        seg_excerpt_spec(content).len() <= 81,
{
}

} // verus!
