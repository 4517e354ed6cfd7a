//! The decisions of the deconstruction pipeline between its steps: which
//! segments need notes, how the progress follows the notes, when a failed
//! call is retried, which card files remain, and when a regenerated file is
//! kept, and the order of the phases of a run with what each one does on a
//! resumed run. The caller performs the steps (model calls, files) and
//! reports back.

use vstd::prelude::*;
use crate::engine::Progress;
use crate::evidence::EvidencePack;
use crate::text::{chars_of, decimal, push_decimal, push_str_chars, string_of};

verus! {

/// Retries of the notes of one segment after a failed attempt.
pub const NOTES_MAX_RETRY: usize = 2;
/// Regenerations of a card file whose quotes were not found.
pub const QUOTE_REGEN_MAX: usize = 1;

pub const CONFIG_MISSING: &'static str = "模型未配置：请在 ~/.config/shiro/config.toml 填写 [llm] 段（base_url / api_key / model）";
pub const NOTES_ALL_FAILED: &'static str = "全部段落笔记解析失败，无法继续";

/// The selected segments, split into those whose notes are already on disk
/// and those still to be produced, in selection order; positions past the
/// segments are ignored.
pub open spec fn plan_notes_spec(selected: Seq<usize>, count: nat, cached: Seq<bool>) -> (Seq<usize>, Seq<usize>)
    decreases selected.len(),
{
    if selected.len() == 0 {
        (seq![], seq![])
    } else {
        let (done, queue) = plan_notes_spec(selected.drop_last(), count, cached);
        let i = selected.last();
        if i >= count {
            (done, queue)
        } else if cached[i as int] {
            (done.push(i), queue)
        } else {
            (done, queue.push(i))
        }
    }
}

/// The notes plan of a run: selected segments with
/// notes on disk (`cached[i]`) are done, the others are queued.
pub fn plan_notes(selected: &[usize], segment_count: usize, cached: &[bool]) -> (r: (Vec<usize>, Vec<usize>))
    requires
        cached@.len() == segment_count,
    ensures
        (r.0@, r.1@) == plan_notes_spec(selected@, segment_count as nat, cached@),
{
    let mut done: Vec<usize> = Vec::new();
    let mut queue: Vec<usize> = Vec::new();
    let mut k: usize = 0;
    while k < selected.len()
        invariant
            k <= selected@.len(),
            cached@.len() == segment_count,
            (done@, queue@) == plan_notes_spec(selected@.take(k as int), segment_count as nat, cached@),
        decreases selected@.len() - k,
    {
        assert(selected@.take(k + 1).drop_last() =~= selected@.take(k as int));
        let i = selected[k];
        if i < segment_count {
            if cached[i] {
                done.push(i);
            } else {
                queue.push(i);
            }
        }
        k += 1;
    }
    assert(selected@.take(selected@.len() as int) =~= selected@);
    (done, queue)
}

/// How many queued segments start now: enough to fill the window of `max`
/// calls in flight, as far as the queue goes.
pub fn spawn_count(in_flight: usize, max: usize, next: usize, queued: usize) -> (r: usize)
    ensures
        r == (if in_flight >= max || next >= queued {
            0
        } else if max - in_flight < queued - next {
            (max - in_flight) as usize
        } else {
            (queued - next) as usize
        }),
        in_flight + r <= max || r == 0,
        next + r <= queued || r == 0,
{
    if in_flight >= max || next >= queued {
        0
    } else if max - in_flight < queued - next {
        max - in_flight
    } else {
        queued - next
    }
}

/// The notes of segment `i` are being produced.
pub fn start_note(progress: &mut Progress, i: usize)
    ensures
        final(progress).notes_active@ == old(progress).notes_active@.push(i),
        final(progress).notes_finished@ == old(progress).notes_finished@,
        final(progress).notes_failed@ == old(progress).notes_failed@,
        final(progress).notes_done == old(progress).notes_done,
        final(progress).stage == old(progress).stage,
{
    progress.notes_active.push(i);
}

/// The notes of segment `i` came back (parsed or given up): the segment
/// leaves the active list and joins the finished or the failed list, and
/// one more segment is done.
pub fn finish_note(progress: &mut Progress, i: usize, parsed: bool)
    requires
        old(progress).notes_done < usize::MAX,
    ensures
        final(progress).notes_active@ == old(progress).notes_active@.filter(|x: usize| x != i),
        parsed ==> final(progress).notes_finished@ == old(progress).notes_finished@.push(i)
            && final(progress).notes_failed@ == old(progress).notes_failed@,
        !parsed ==> final(progress).notes_failed@ == old(progress).notes_failed@.push(i)
            && final(progress).notes_finished@ == old(progress).notes_finished@,
        final(progress).notes_done == old(progress).notes_done + 1,
        final(progress).stage == old(progress).stage,
{
    let mut kept: Vec<usize> = Vec::new();
    let mut k: usize = 0;
    let ghost act = progress.notes_active@;
    while k < progress.notes_active.len()
        invariant
            k <= progress.notes_active@.len(),
            act == progress.notes_active@,
            kept@ == act.take(k as int).filter(|x: usize| x != i),
        decreases progress.notes_active@.len() - k,
    {
        assert(act.take(k + 1).drop_last() =~= act.take(k as int));
        reveal(Seq::filter);
        let x = progress.notes_active[k];
        if x != i {
            kept.push(x);
        }
        k += 1;
    }
    assert(act.take(act.len() as int) =~= act);
    progress.notes_active = kept;
    if parsed {
        progress.notes_finished.push(i);
    } else {
        progress.notes_failed.push(i);
    }
    progress.notes_done = progress.notes_done + 1;
}

/// What follows a failed notes call.
pub enum NoteCallFailure {
    /// Retryable (network or rate limit): try again if attempts remain.
    Retry,
    /// Configuration or protocol error: the whole task fails with this message.
    Fatal(String),
}

/// A failed notes call of segment
/// `i`: a retryable error is retried, any other fails the task.
pub fn note_call_failure(i: usize, label: &str, retryable: bool, message: &str) -> (r: NoteCallFailure)
    ensures
        retryable ==> r is Retry,
        !retryable ==> (r matches NoteCallFailure::Fatal(m) && m@ == "段 "@ + decimal(i as nat) + "（"@ + label@
            + "）笔记调用失败（配置/协议）："@ + message@),
{
    if retryable {
        return NoteCallFailure::Retry;
    }
    let mut v: Vec<char> = Vec::new();
    push_str_chars(&mut v, "段 ");
    push_decimal(&mut v, i as u64);
    push_str_chars(&mut v, "（");
    push_str_chars(&mut v, label);
    push_str_chars(&mut v, "）笔记调用失败（配置/协议）：");
    push_str_chars(&mut v, message);
    NoteCallFailure::Fatal(string_of(&v))
}

/// Attempts of the notes of one segment before it is given up.
pub fn note_attempts() -> (r: usize)
    ensures
        r == NOTES_MAX_RETRY + 1,
{
    NOTES_MAX_RETRY + 1
}

/// The evidence step finds nothing about the character: no dialogue, no
/// event, no mention. The task fails with a hint about names and aliases.
pub fn evidence_error(character: &str, pack: &EvidencePack) -> (r: Option<String>)
    ensures
        match r {
            Some(m) => pack.dialogues@.len() == 0 && pack.events@.len() == 0 && pack.mentions@.len() == 0
                && m@ == "未在剧本中找到「"@ + character@ + "」的证据：检查角色名与别名是否与剧本中的写法一致"@,
            None => !(pack.dialogues@.len() == 0 && pack.events@.len() == 0 && pack.mentions@.len() == 0),
        },
{
    if pack.dialogues.len() == 0 && pack.events.len() == 0 && pack.mentions.len() == 0 {
        let mut v: Vec<char> = Vec::new();
        push_str_chars(&mut v, "未在剧本中找到「");
        push_str_chars(&mut v, character);
        push_str_chars(&mut v, "」的证据：检查角色名与别名是否与剧本中的写法一致");
        Some(string_of(&v))
    } else {
        None
    }
}

/// The names of the files that are not on disk yet, in order.
pub open spec fn missing_spec(names: Seq<Seq<char>>, present: Seq<bool>) -> Seq<Seq<char>>
    decreases names.len(),
{
    if names.len() == 0 {
        seq![]
    } else {
        let rest = missing_spec(names.drop_last(), present);
        if present[names.len() - 1] {
            rest
        } else {
            rest.push(names.last())
        }
    }
}

/// Card files of a wave that still have to be generated.
pub fn missing_files(names: &[&str], present: &[bool]) -> (r: Vec<String>)
    requires
        present@.len() == names@.len(),
    ensures
        crate::evidence::strings_view(r@) == missing_spec(names@.map_values(|s: &str| s@), present@),
{
    let ghost nv = names@.map_values(|s: &str| s@);
    let mut out: Vec<String> = Vec::new();
    let mut k: usize = 0;
    while k < names.len()
        invariant
            k <= names@.len(),
            present@.len() == names@.len(),
            nv == names@.map_values(|s: &str| s@),
            crate::evidence::strings_view(out@) == missing_spec(nv.take(k as int), present@),
        decreases names@.len() - k,
    {
        assert(nv.take(k + 1).drop_last() =~= nv.take(k as int));
        if !present[k] {
            let ghost prev = out@;
            out.push(names[k].to_owned());
            assert(crate::evidence::strings_view(out@) =~= crate::evidence::strings_view(prev).push(nv[k as int]));
        }
        k += 1;
    }
    assert(nv.take(nv.len() as int) =~= nv);
    out
}

/// The files of the second wave (all depend on `soul` only).
pub fn second_wave() -> (r: Vec<&'static str>)
    ensures
        r@.map_values(|s: &'static str| s@) == seq!["speech_patterns"@, "behavior_guide"@, "relationship_dynamics"@, "key_life_events"@],
{
    let r = vec!["speech_patterns", "behavior_guide", "relationship_dynamics", "key_life_events"];
    assert(r@.map_values(|s: &'static str| s@) =~= seq!["speech_patterns"@, "behavior_guide"@, "relationship_dynamics"@, "key_life_events"@]);
    r
}

/// A regenerated file replaces the first one when fewer of its quotes fail.
pub fn keep_regenerated(new_failed: usize, failed: usize) -> (r: bool)
    ensures
        r == (new_failed < failed),
{
    new_failed < failed
}

/// Another regeneration is tried while quotes fail and the budget lasts.
pub fn regenerate_again(failed: usize, regen: usize) -> (r: bool)
    ensures
        r == (failed > 0 && regen < QUOTE_REGEN_MAX),
{
    failed > 0 && regen < QUOTE_REGEN_MAX
}


// ---- the run as a sequence of phases ----

/// The phases of a run, in order.
#[derive(Debug, Clone, Copy, PartialEq, Eq, Structural)]
pub enum RunPhase {
    /// The source text is read.
    Source,
    /// The chunks are at hand; the segments to use are chosen.
    Selection,
    /// The notes of the selected segments are written.
    Notes,
    /// The evidence pack is built.
    Evidence,
    /// `soul` is generated.
    Soul,
    /// The four files that rest on `soul` are generated.
    SecondWave,
    /// `limit` is generated.
    Limit,
    /// `index` is generated.
    Index,
    /// The quotes of the card are verified.
    Verify,
    /// The run is over (finished, paused or failed).
    Finished,
}

/// What the caller does next.
#[derive(Debug, Clone, PartialEq)]
pub enum RunAction {
    /// Probe the text, chunk it, and write both down.
    ProbeAndChunk,
    /// Reuse the chunks and the probe written by an earlier run.
    ReuseChunks,
    /// Write the segment list and pause until segments are selected.
    AwaitSelection,
    /// Write the notes of the selected segments.
    WriteNotes,
    /// Stop with this error.
    Fail(String),
    /// Build the evidence pack.
    BuildEvidence,
    /// Generate these card files (those of the wave not written yet).
    Generate(Vec<String>),
    /// Verify the quotes of the card.
    VerifyQuotes,
    /// Reuse the quote report of an earlier run.
    ReuseReport,
    /// Nothing more to do.
    Stop,
}

/// What the caller knows when it asks for the next step.
#[derive(Debug, Clone, PartialEq)]
pub struct RunFacts {
    /// `chunks.json` was written by an earlier run.
    pub chunks_cached: bool,
    /// `probe.json` was written by an earlier run.
    pub probe_cached: bool,
    /// Segments have been selected.
    pub selected: bool,
    /// Notes that parsed, cached ones included.
    pub notes_parsed: usize,
    /// For each generated file, in generation order, whether it is on disk.
    pub present: Vec<bool>,
    /// `report.json` was written by an earlier run.
    pub report_cached: bool,
}

/// Files of a wave not on disk yet: the generation files `from..to`.
pub open spec fn wave_missing(present: Seq<bool>, from: int, to: int) -> Seq<Seq<char>> {
    missing_spec(crate::engine::generation_files_spec().subrange(from, to), present.subrange(from, to))
}

/// The next phase and action after `phase`, on the facts at hand.
pub open spec fn step_spec(phase: RunPhase, f: RunFacts, r: (RunPhase, RunAction)) -> bool {
    match phase {
        RunPhase::Source => r.0 == RunPhase::Selection
            && (if f.chunks_cached && f.probe_cached { r.1 is ReuseChunks } else { r.1 is ProbeAndChunk }),
        RunPhase::Selection => if f.selected {
            r.0 == RunPhase::Notes && r.1 is WriteNotes
        } else {
            r.0 == RunPhase::Finished && r.1 is AwaitSelection
        },
        RunPhase::Notes => if f.notes_parsed == 0 {
            r.0 == RunPhase::Finished && (r.1 matches RunAction::Fail(m) && m@ == NOTES_ALL_FAILED@)
        } else {
            r.0 == RunPhase::Evidence && r.1 is BuildEvidence
        },
        RunPhase::Evidence => r.0 == RunPhase::Soul
            && (r.1 matches RunAction::Generate(v) && crate::evidence::strings_view(v@) == wave_missing(f.present@, 0, 1)),
        RunPhase::Soul => r.0 == RunPhase::SecondWave
            && (r.1 matches RunAction::Generate(v) && crate::evidence::strings_view(v@) == wave_missing(f.present@, 1, 5)),
        RunPhase::SecondWave => r.0 == RunPhase::Limit
            && (r.1 matches RunAction::Generate(v) && crate::evidence::strings_view(v@) == wave_missing(f.present@, 5, 6)),
        RunPhase::Limit => r.0 == RunPhase::Index
            && (r.1 matches RunAction::Generate(v) && crate::evidence::strings_view(v@) == wave_missing(f.present@, 6, 7)),
        RunPhase::Index => if f.report_cached {
            r.0 == RunPhase::Finished && r.1 is ReuseReport
        } else {
            r.0 == RunPhase::Verify && r.1 is VerifyQuotes
        },
        RunPhase::Verify | RunPhase::Finished => r.0 == RunPhase::Finished && r.1 is Stop,
    }
}

/// The missing files among the generation files `from..to`.
fn wave(present: &Vec<bool>, from: usize, to: usize) -> (r: Vec<String>)
    requires
        from <= to <= 7,
        present@.len() == 7,
    ensures
        crate::evidence::strings_view(r@) == wave_missing(present@, from as int, to as int),
{
    let all = crate::engine::generation_files();
    let mut names: Vec<&str> = Vec::new();
    let mut here: Vec<bool> = Vec::new();
    assert(all@.len() == 7) by {
        assert(all@.map_values(|s: &'static str| s@).len() == 7);
    }
    let mut k = from;
    while k < to
        invariant
            from <= k <= to <= 7,
            all@.len() == 7,
            present@.len() == 7,
            all@.map_values(|s: &'static str| s@) == crate::engine::generation_files_spec(),
            names@.map_values(|s: &str| s@) == crate::engine::generation_files_spec().subrange(from as int, k as int),
            here@ == present@.subrange(from as int, k as int),
        decreases to - k,
    {
        let ghost prev = names@.map_values(|s: &str| s@);
        names.push(all[k]);
        here.push(present[k]);
        assert(names@.map_values(|s: &str| s@) =~= prev.push(all@[k as int]@));
        assert(crate::engine::generation_files_spec().subrange(from as int, k + 1)
            =~= crate::engine::generation_files_spec().subrange(from as int, k as int).push(crate::engine::generation_files_spec()[k as int]));
        assert(present@.subrange(from as int, k + 1) =~= present@.subrange(from as int, k as int).push(present@[k as int]));
        k += 1;
    }
    missing_files(&names, &here)
}

/// One step of a run: from the phase just finished and the facts at hand,
/// the next phase and what to do in it.
pub fn run_step(phase: RunPhase, facts: &RunFacts) -> (r: (RunPhase, RunAction))
    requires
        facts.present@.len() == 7,
    ensures
        step_spec(phase, *facts, r),
{
    match phase {
        RunPhase::Source => {
            let a = if facts.chunks_cached && facts.probe_cached { RunAction::ReuseChunks } else { RunAction::ProbeAndChunk };
            (RunPhase::Selection, a)
        },
        RunPhase::Selection => if facts.selected {
            (RunPhase::Notes, RunAction::WriteNotes)
        } else {
            (RunPhase::Finished, RunAction::AwaitSelection)
        },
        RunPhase::Notes => if facts.notes_parsed == 0 {
            (RunPhase::Finished, RunAction::Fail(NOTES_ALL_FAILED.to_owned()))
        } else {
            (RunPhase::Evidence, RunAction::BuildEvidence)
        },
        RunPhase::Evidence => (RunPhase::Soul, RunAction::Generate(wave(&facts.present, 0, 1))),
        RunPhase::Soul => (RunPhase::SecondWave, RunAction::Generate(wave(&facts.present, 1, 5))),
        RunPhase::SecondWave => (RunPhase::Limit, RunAction::Generate(wave(&facts.present, 5, 6))),
        RunPhase::Limit => (RunPhase::Index, RunAction::Generate(wave(&facts.present, 6, 7))),
        RunPhase::Index => if facts.report_cached {
            (RunPhase::Finished, RunAction::ReuseReport)
        } else {
            (RunPhase::Verify, RunAction::VerifyQuotes)
        },
        RunPhase::Verify | RunPhase::Finished => (RunPhase::Finished, RunAction::Stop),
    }
}

/// Position of a phase in the run.
pub open spec fn phase_rank(p: RunPhase) -> int {
    match p {
        RunPhase::Source => 0,
        RunPhase::Selection => 1,
        RunPhase::Notes => 2,
        RunPhase::Evidence => 3,
        RunPhase::Soul => 4,
        RunPhase::SecondWave => 5,
        RunPhase::Limit => 6,
        RunPhase::Index => 7,
        RunPhase::Verify => 8,
        RunPhase::Finished => 9,
    }
}

/// Every name left by `missing_spec` is a name whose file is not present.
pub proof fn lemma_missing_not_present(names: Seq<Seq<char>>, present: Seq<bool>)
    requires
        present.len() == names.len(),
    ensures
        forall|k: int| 0 <= k < missing_spec(names, present).len() ==> exists|j: int|
            0 <= j < names.len() && !present[j] && #[trigger] missing_spec(names, present)[k] == names[j],
    decreases names.len(),
{
    if names.len() > 0 {
        let rest = missing_spec(names.drop_last(), present.drop_last());
        lemma_missing_prefix(names, present);
        lemma_missing_not_present(names.drop_last(), present.drop_last());
        assert forall|k: int| 0 <= k < missing_spec(names, present).len() implies exists|j: int|
            0 <= j < names.len() && !present[j] && #[trigger] missing_spec(names, present)[k] == names[j] by {
            if k < rest.len() {
                let j = choose|j: int| 0 <= j < names.drop_last().len() && !present.drop_last()[j]
                    && rest[k] == names.drop_last()[j];
                assert(missing_spec(names, present)[k] == rest[k]);
                assert(names[j] == names.drop_last()[j]);
            } else {
                assert(missing_spec(names, present)[k] == names[names.len() - 1]);
            }
        }
    }
}

/// `missing_spec` reads only the flags of the names it is given.
proof fn lemma_missing_prefix(names: Seq<Seq<char>>, present: Seq<bool>)
    requires
        present.len() == names.len(),
        names.len() > 0,
    ensures
        missing_spec(names, present) == if present[names.len() - 1] {
            missing_spec(names.drop_last(), present.drop_last())
        } else {
            missing_spec(names.drop_last(), present.drop_last()).push(names.last())
        },
{
    lemma_missing_flags(names.drop_last(), present, present.drop_last());
}

proof fn lemma_missing_flags(names: Seq<Seq<char>>, p1: Seq<bool>, p2: Seq<bool>)
    requires
        names.len() <= p1.len(),
        names.len() <= p2.len(),
        forall|j: int| 0 <= j < names.len() ==> p1[j] == p2[j],
    ensures
        missing_spec(names, p1) == missing_spec(names, p2),
    decreases names.len(),
{
    if names.len() > 0 {
        lemma_missing_flags(names.drop_last(), p1, p2);
    }
}

/// Law of the run: phases only move forward, and each step leads to a later
/// phase until the run is over; in particular no notes are written before
/// segments are selected, and nothing follows a pause or a failure.
pub proof fn law_run_moves_forward(phase: RunPhase, f: RunFacts, r: (RunPhase, RunAction))
    requires
        step_spec(phase, f, r),
    ensures
        phase != RunPhase::Finished ==> phase_rank(r.0) > phase_rank(phase),
        phase == RunPhase::Finished ==> r.0 == RunPhase::Finished && r.1 is Stop,
        r.1 is WriteNotes ==> f.selected,
        r.1 is AwaitSelection || r.1 is Fail ==> r.0 == RunPhase::Finished,
{
}

/// `x` is a card file that is not on disk.
pub open spec fn unwritten_file(x: Seq<char>, present: Seq<bool>) -> bool {
    exists|j: int| 0 <= j < 7 && !present[j] && x == #[trigger] crate::engine::generation_files_spec()[j]
}

/// Law of the run: a resumed run generates only files that are not on disk,
/// each a card file of the wave of its phase.
pub proof fn law_run_skips_written_files(phase: RunPhase, f: RunFacts, r: (RunPhase, RunAction))
    requires
        f.present@.len() == 7,
        step_spec(phase, f, r),
    ensures
        r.1 matches RunAction::Generate(v) ==> forall|k: int| 0 <= k < v@.len()
            ==> unwritten_file(#[trigger] v@[k]@, f.present@),
{
    if let RunAction::Generate(v) = r.1 {
        let (from, to): (int, int) = match phase {
            RunPhase::Evidence => (0, 1),
            RunPhase::Soul => (1, 5),
            RunPhase::SecondWave => (5, 6),
            _ => (6, 7),
        };
        let names = crate::engine::generation_files_spec().subrange(from, to);
        let flags = f.present@.subrange(from, to);
        assert(crate::engine::generation_files_spec().len() == 7);
        assert(crate::evidence::strings_view(v@) == missing_spec(names, flags));
        lemma_missing_not_present(names, flags);
        assert forall|k: int| 0 <= k < v@.len() implies unwritten_file(#[trigger] v@[k]@, f.present@) by {
            assert(crate::evidence::strings_view(v@)[k] == v@[k]@);
            let j = choose|j: int| 0 <= j < names.len() && !flags[j] && missing_spec(names, flags)[k] == names[j];
            assert(names[j] == crate::engine::generation_files_spec()[from + j]);
            assert(flags[j] == f.present@[from + j]);
        }
    }
}

} // verus!
