//! Call logs of a task: one log per model call (attempts appended to it),
//! named by sequence number and node, summarised for the log list.

use vstd::prelude::*;
use crate::engine::LogSummary;
use crate::llm::{ChatOutput, LlmError, Usage};
use crate::text::{chars_of, decimal, push_decimal, push_str_chars, string_of};

verus! {

/// `n` in decimal, left-padded with zeros to three digits.
pub open spec fn pad3(n: nat) -> Seq<char> {
    let d = decimal(n);
    if d.len() == 1 {
        seq!['0', '0'] + d
    } else if d.len() == 2 {
        seq!['0'] + d
    } else {
        d
    }
}

proof fn lemma_decimal_len(n: nat)
    ensures
        decimal(n).len() >= 1,
        n < 10 ==> decimal(n).len() == 1,
        10 <= n < 100 ==> decimal(n).len() == 2,
        n >= 100 ==> decimal(n).len() >= 3,
    decreases n,
{
    if n >= 10 {
        lemma_decimal_len(n / 10);
    }
}

/// File name of the log of call `seq` of node `node`: `{seq:03}-{node}.json`.
pub fn log_file_name(seq: u32, node: &str) -> (r: String)
    ensures
        r@ == pad3(seq as nat) + seq!['-'] + node@ + ".json"@,
{
    proof {
        lemma_decimal_len(seq as nat);
    }
    let mut v: Vec<char> = Vec::new();
    if seq < 10 {
        v.push('0');
        v.push('0');
    } else if seq < 100 {
        v.push('0');
    }
    let ghost pre = v@;
    push_decimal(&mut v, seq as u64);
    assert(v@ =~= pad3(seq as nat)) by {
        if seq < 10 {
            assert(pre =~= seq!['0', '0']);
        } else if seq < 100 {
            assert(pre =~= seq!['0']);
        } else {
            assert(pre =~= Seq::<char>::empty());
        }
    }
    v.push('-');
    push_str_chars(&mut v, node);
    push_str_chars(&mut v, ".json");
    string_of(&v)
}

/// A log still waiting for its call: its `ok` field is present and null,
/// and it is not marked abandoned.
pub open spec fn pending_spec(ok_field: Option<Option<bool>>, abandoned: Option<bool>) -> bool {
    ok_field == Some(None::<bool>) && !(abandoned == Some(true))
}

/// Whether a call log is pending (it is then marked abandoned). `ok_field` is none when the
/// log has no `ok`, `Some(None)` when it is null.
pub fn is_pending_log(ok_field: Option<Option<bool>>, abandoned: Option<bool>) -> (r: bool)
    ensures
        r == pending_spec(ok_field, abandoned),
{
    let open = match ok_field {
        Some(None) => true,
        _ => false,
    };
    let done = match abandoned {
        Some(true) => true,
        _ => false,
    };
    open && !done
}

/// One attempt of a call, as read from its log.
#[derive(Debug, Clone, PartialEq)]
pub struct AttemptRecord {
    pub response: Option<String>,
    pub thinking: Option<String>,
    pub error: Option<String>,
    pub input: Option<u64>,
    pub output: Option<u64>,
    pub cache_read: Option<u64>,
    pub cache_write: Option<u64>,
}

/// A call log as read from its file (absent fields are none).
#[derive(Debug, Clone, PartialEq)]
pub struct LogRecord {
    pub seq: Option<u64>,
    pub node: Option<String>,
    pub detail: Option<String>,
    pub segment: Option<u64>,
    pub ok: Option<bool>,
    pub abandoned: Option<bool>,
    pub at: Option<u64>,
    pub elapsed_ms: Option<u64>,
    /// The request's system message.
    pub system: Option<String>,
    /// The request's user message.
    pub user: Option<String>,
    pub attempts: Vec<AttemptRecord>,
}

pub open spec fn or_zero(o: Option<u64>) -> int {
    match o {
        Some(x) => x as int,
        None => 0,
    }
}

pub open spec fn len_or_zero(o: Option<String>) -> int {
    match o {
        Some(s) => s@.len() as int,
        None => 0,
    }
}

/// Sum of a usage field over the attempts (absent counts as zero).
pub open spec fn usage_sum(a: Seq<AttemptRecord>, field: int) -> int
    decreases a.len(),
{
    if a.len() == 0 {
        0
    } else {
        let x = a.last();
        usage_sum(a.drop_last(), field) + or_zero(
            if field == 0 { x.input } else if field == 1 { x.output } else if field == 2 { x.cache_read } else { x.cache_write },
        )
    }
}

/// Characters of the responses over the attempts.
pub open spec fn response_sum(a: Seq<AttemptRecord>) -> int
    decreases a.len(),
{
    if a.len() == 0 {
        0
    } else {
        response_sum(a.drop_last()) + len_or_zero(a.last().response)
    }
}

/// The error of the last attempt that has one.
pub open spec fn last_error(a: Seq<AttemptRecord>) -> Option<Seq<char>>
    decreases a.len(),
{
    if a.len() == 0 {
        None
    } else {
        match a.last().error {
            Some(e) => Some(e@),
            None => last_error(a.drop_last()),
        }
    }
}

/// Some attempt has a non-empty thinking text.
pub open spec fn any_thinking(a: Seq<AttemptRecord>) -> bool {
    exists|k: int| 0 <= k < a.len() && thought(#[trigger] a[k])
}

pub open spec fn thought(x: AttemptRecord) -> bool {
    match x.thinking {
        Some(t) => t@.len() > 0,
        None => false,
    }
}

pub open spec fn positive(x: int) -> Option<u64> {
    if x > 0 { Some(x as u64) } else { None }
}

/// The sums fit in their integer types.
pub open spec fn sums_fit(rec: LogRecord) -> bool {
    let a = rec.attempts@;
    &&& usage_sum(a, 0) <= u64::MAX
    &&& usage_sum(a, 1) <= u64::MAX
    &&& usage_sum(a, 2) * 100 <= u64::MAX
    &&& usage_sum(a, 3) <= u64::MAX
    &&& response_sum(a) <= usize::MAX
    &&& len_or_zero(rec.system) + len_or_zero(rec.user) <= usize::MAX
}

fn chars_len(o: &Option<String>) -> (r: usize)
    ensures
        r == len_or_zero(*o),
{
    match o {
        Some(s) => chars_of(s).len(),
        None => 0,
    }
}

/// The summary of one call log: lengths of the
/// request and responses, usage summed over the attempts, the last error,
/// whether any attempt thought, and at least one attempt counted.
pub fn summarize_log(rec: &LogRecord) -> (r: LogSummary)
    requires
        sums_fit(*rec),
    ensures
        r.seq == (or_zero(rec.seq) as u64) as u32,
        r.node@ == (match rec.node { Some(s) => s@, None => Seq::<char>::empty() }),
        r.detail@ == (match rec.detail { Some(s) => s@, None => Seq::<char>::empty() }),
        r.segment == (match rec.segment { Some(x) => Some(x as usize), None => None }),
        r.ok == rec.ok,
        r.abandoned == (rec.abandoned == Some(true)),
        r.at == or_zero(rec.at),
        r.elapsed_ms == or_zero(rec.elapsed_ms),
        r.request_chars == len_or_zero(rec.system) + len_or_zero(rec.user),
        r.response_chars == response_sum(rec.attempts@),
        (match r.error { Some(e) => Some(e@), None => None }) == last_error(rec.attempts@),
        r.attempt_count == (if rec.attempts@.len() > 0 { rec.attempts@.len() } else { 1 }),
        r.input_tokens == positive(usage_sum(rec.attempts@, 0)),
        r.output_tokens == positive(usage_sum(rec.attempts@, 1)),
        r.cache_read == positive(usage_sum(rec.attempts@, 2)),
        r.cache_hit_rate == (if usage_sum(rec.attempts@, 2) == 0 || usage_sum(rec.attempts@, 0) == 0 {
            None
        } else {
            Some((usage_sum(rec.attempts@, 2) * 100 / usage_sum(rec.attempts@, 0)) as u32)
        }),
        r.has_thinking == any_thinking(rec.attempts@),
{
    let a = &rec.attempts;
    let mut input: u64 = 0;
    let mut output: u64 = 0;
    let mut cache_read: u64 = 0;
    let mut cache_write: u64 = 0;
    let mut response_chars: usize = 0;
    let mut error: Option<String> = None;
    let mut thinking = false;
    let mut k: usize = 0;
    while k < a.len()
        invariant
            k <= a@.len(),
            sums_fit(*rec),
            a@ == rec.attempts@,
            input == usage_sum(a@.take(k as int), 0),
            output == usage_sum(a@.take(k as int), 1),
            cache_read == usage_sum(a@.take(k as int), 2),
            cache_write == usage_sum(a@.take(k as int), 3),
            response_chars == response_sum(a@.take(k as int)),
            (match error { Some(e) => Some(e@), None => None }) == last_error(a@.take(k as int)),
            thinking == any_thinking(a@.take(k as int)),
        decreases a@.len() - k,
    {
        let ghost t = a@.take(k as int);
        let ghost t1 = a@.take(k + 1);
        assert(t1.drop_last() =~= t);
        proof {
            lemma_sums_mono(a@, k as int + 1);
        }
        let x = &a[k];
        input = input + match x.input { Some(v) => v, None => 0 };
        output = output + match x.output { Some(v) => v, None => 0 };
        cache_read = cache_read + match x.cache_read { Some(v) => v, None => 0 };
        cache_write = cache_write + match x.cache_write { Some(v) => v, None => 0 };
        response_chars = response_chars + chars_len(&x.response);
        match &x.error {
            Some(e) => {
                error = Some(e.clone());
            },
            None => {},
        }
        let th = match &x.thinking {
            Some(s) => chars_of(s).len() > 0,
            None => false,
        };
        proof {
            if any_thinking(t) {
                let j = choose|j: int| 0 <= j < t.len() && thought(#[trigger] t[j]);
                assert(t1[j] == t[j]);
            }
            if th {
                assert(t1[k as int] == *x);
            }
            if any_thinking(t1) && !th {
                let j = choose|j: int| 0 <= j < t1.len() && thought(#[trigger] t1[j]);
                assert(j < k);
                assert(t[j] == t1[j]);
            }
        }
        thinking = thinking || th;
        k += 1;
    }
    assert(a@.take(a@.len() as int) =~= a@);
    let request_chars = chars_len(&rec.system) + chars_len(&rec.user);
    let usage = Usage { input, output, cache_read, cache_write };
    LogSummary {
        seq: (match rec.seq { Some(v) => v, None => 0 }) as u32,
        node: match &rec.node { Some(s) => s.clone(), None => String::new() },
        detail: match &rec.detail { Some(s) => s.clone(), None => String::new() },
        segment: match rec.segment { Some(x) => Some(x as usize), None => None },
        ok: rec.ok,
        abandoned: match rec.abandoned { Some(true) => true, _ => false },
        at: match rec.at { Some(v) => v, None => 0 },
        elapsed_ms: match rec.elapsed_ms { Some(v) => v, None => 0 },
        request_chars,
        response_chars,
        error,
        attempt_count: if a.len() > 0 { a.len() } else { 1 },
        input_tokens: if input > 0 { Some(input) } else { None },
        output_tokens: if output > 0 { Some(output) } else { None },
        cache_read: if cache_read > 0 { Some(cache_read) } else { None },
        cache_hit_rate: usage.cache_hit_rate(),
        has_thinking: thinking,
    }
}

/// Sums over a prefix are at most the sums over the whole.
proof fn lemma_sums_mono(a: Seq<AttemptRecord>, k: int)
    requires
        0 <= k <= a.len(),
    ensures
        usage_sum(a.take(k), 0) <= usage_sum(a, 0),
        usage_sum(a.take(k), 1) <= usage_sum(a, 1),
        usage_sum(a.take(k), 2) <= usage_sum(a, 2),
        usage_sum(a.take(k), 3) <= usage_sum(a, 3),
        response_sum(a.take(k)) <= response_sum(a),
    decreases a.len() - k,
{
    if k < a.len() {
        lemma_sums_mono(a, k + 1);
        assert(a.take(k + 1).drop_last() =~= a.take(k));
    } else {
        assert(a.take(k) =~= a);
    }
}


// ---- writing a call log ----

/// One attempt of a call as written to its log.
#[derive(Debug, Clone, PartialEq)]
pub struct AttemptLog {
    pub at: u64,
    /// None while the call runs.
    pub ok: Option<bool>,
    pub response: String,
    pub thinking: String,
    pub error: Option<String>,
    pub usage: Option<Usage>,
    /// The reply came from the call without streaming.
    pub fallback: bool,
    pub elapsed_ms: u64,
}

/// The request of a call.
#[derive(Debug, Clone, PartialEq)]
pub struct CallRequest {
    pub system: String,
    pub user: String,
}

/// The log of one call of a task: its request and every attempt.
#[derive(Debug, Clone, PartialEq)]
pub struct CallLog {
    pub seq: u32,
    pub at: u64,
    pub node: String,
    pub detail: String,
    pub segment: Option<usize>,
    pub request: CallRequest,
    pub attempts: Vec<AttemptLog>,
    /// The state of the last attempt (None while it runs).
    pub ok: Option<bool>,
    pub abandoned: bool,
    /// The time of all attempts.
    pub elapsed_ms: u64,
}

/// The time of all attempts.
pub open spec fn elapsed_sum(a: Seq<AttemptLog>) -> int
    decreases a.len(),
{
    if a.len() == 0 {
        0
    } else {
        elapsed_sum(a.drop_last()) + a.last().elapsed_ms
    }
}

proof fn lemma_elapsed_update(a: Seq<AttemptLog>, i: int, x: AttemptLog)
    requires
        0 <= i < a.len(),
    ensures
        elapsed_sum(a.update(i, x)) == elapsed_sum(a) - a[i].elapsed_ms + x.elapsed_ms,
    decreases a.len(),
{
    if i < a.len() - 1 {
        lemma_elapsed_update(a.drop_last(), i, x);
        assert(a.update(i, x).drop_last() =~= a.drop_last().update(i, x));
    } else {
        assert(a.update(i, x).drop_last() =~= a.drop_last());
    }
}

proof fn lemma_elapsed_prefix(a: Seq<AttemptLog>, k: int)
    requires
        0 <= k <= a.len(),
    ensures
        elapsed_sum(a.take(k)) <= elapsed_sum(a),
    decreases a.len() - k,
{
    if k < a.len() {
        lemma_elapsed_prefix(a, k + 1);
        assert(a.take(k + 1).drop_last() =~= a.take(k));
    } else {
        assert(a.take(k) =~= a);
    }
}

/// A new log of call `seq`: the request, no attempt yet.
pub fn new_call_log(seq: u32, at: u64, node: &str, detail: &str, segment: Option<usize>, system: &str, user: &str) -> (r: CallLog)
    ensures
        r.seq == seq,
        r.at == at,
        r.node@ == node@,
        r.detail@ == detail@,
        r.segment == segment,
        r.request.system@ == system@,
        r.request.user@ == user@,
        r.attempts@.len() == 0,
        r.ok is None,
        !r.abandoned,
        r.elapsed_ms == 0,
{
    CallLog {
        seq,
        at,
        node: node.to_owned(),
        detail: detail.to_owned(),
        segment,
        request: CallRequest { system: system.to_owned(), user: user.to_owned() },
        attempts: Vec::new(),
        ok: None,
        abandoned: false,
        elapsed_ms: 0,
    }
}

/// The log fields other than the attempts, the state and the time are kept.
pub open spec fn same_call(a: CallLog, b: CallLog) -> bool {
    &&& a.seq == b.seq
    &&& a.at == b.at
    &&& a.node == b.node
    &&& a.detail == b.detail
    &&& a.segment == b.segment
    &&& a.request == b.request
    &&& a.abandoned == b.abandoned
}

/// A new attempt starts at `at`: pending, empty, appended after the others
/// (its position is returned).
pub fn begin_attempt(log: &mut CallLog, at: u64) -> (idx: usize)
    ensures
        idx == old(log).attempts@.len(),
        final(log).attempts@.len() == idx + 1,
        forall|k: int| 0 <= k < idx ==> #[trigger] final(log).attempts@[k] == old(log).attempts@[k],
        ({
            let a = final(log).attempts@[idx as int];
            &&& a.at == at
            &&& a.ok is None
            &&& a.response@.len() == 0
            &&& a.thinking@.len() == 0
            &&& a.error is None
            &&& a.usage is None
            &&& !a.fallback
            &&& a.elapsed_ms == 0
        }),
        same_call(*final(log), *old(log)),
        final(log).ok == old(log).ok,
        final(log).elapsed_ms == old(log).elapsed_ms,
{
    let idx = log.attempts.len();
    log.attempts.push(AttemptLog {
        at,
        ok: None,
        response: String::new(),
        thinking: String::new(),
        error: None,
        usage: None,
        fallback: false,
        elapsed_ms: 0,
    });
    idx
}

/// The reply so far of a running attempt (written back while it streams).
pub fn record_partial(log: &mut CallLog, idx: usize, text: &str, thinking: &str, elapsed_ms: u64)
    requires
        idx < old(log).attempts@.len(),
    ensures
        final(log).attempts@.len() == old(log).attempts@.len(),
        forall|k: int| 0 <= k < old(log).attempts@.len() && k != idx ==> #[trigger] final(log).attempts@[k] == old(log).attempts@[k],
        ({
            let a = final(log).attempts@[idx as int];
            let b = old(log).attempts@[idx as int];
            &&& a.response@ == text@
            &&& a.thinking@ == thinking@
            &&& a.elapsed_ms == elapsed_ms
            &&& a.at == b.at && a.ok == b.ok && a.error == b.error && a.usage == b.usage && a.fallback == b.fallback
        }),
        same_call(*final(log), *old(log)),
        final(log).ok == old(log).ok,
        final(log).elapsed_ms == old(log).elapsed_ms,
{
    let b = &log.attempts[idx];
    let a = AttemptLog {
        at: b.at,
        ok: b.ok,
        response: text.to_owned(),
        thinking: thinking.to_owned(),
        error: crate::llm::clone_opt_string(&b.error),
        usage: b.usage,
        fallback: b.fallback,
        elapsed_ms,
    };
    log.attempts.set(idx, a);
}

/// The total time of the attempts once attempt `idx` took `elapsed_ms`
/// fits its integer type.
pub open spec fn finish_fits(log: CallLog, idx: int, elapsed_ms: u64) -> bool {
    elapsed_sum(log.attempts@) - log.attempts@[idx].elapsed_ms + elapsed_ms <= u64::MAX
}

/// Attempt `idx` ended with `result` after `elapsed_ms`: a reply is kept
/// with its usage (when reported) and fallback mark, an error is recorded;
/// the log takes the attempt's state and the total time of all attempts.
pub fn finish_attempt(log: &mut CallLog, idx: usize, result: &Result<ChatOutput, LlmError>, elapsed_ms: u64)
    requires
        idx < old(log).attempts@.len(),
        finish_fits(*old(log), idx as int, elapsed_ms),
    ensures
        final(log).attempts@.len() == old(log).attempts@.len(),
        forall|k: int| 0 <= k < old(log).attempts@.len() && k != idx ==> #[trigger] final(log).attempts@[k] == old(log).attempts@[k],
        ({
            let a = final(log).attempts@[idx as int];
            let b = old(log).attempts@[idx as int];
            &&& a.at == b.at
            &&& a.elapsed_ms == elapsed_ms
            &&& match result {
                Ok(o) => a.ok == Some(true) && a.response@ == o.text@ && a.thinking@ == o.thinking@
                    && a.error == b.error
                    && a.usage == (if o.usage is Some { o.usage } else { b.usage })
                    && a.fallback == (o.fallback || b.fallback),
                Err(e) => a.ok == Some(false) && (a.error matches Some(m) && m@ == e.message@)
                    && a.response == b.response && a.thinking == b.thinking
                    && a.usage == b.usage && a.fallback == b.fallback,
            }
        }),
        final(log).ok == Some(result is Ok),
        final(log).elapsed_ms == elapsed_sum(final(log).attempts@),
        same_call(*final(log), *old(log)),
{
    let b = &log.attempts[idx];
    let a = match result {
        Ok(o) => AttemptLog {
            at: b.at,
            ok: Some(true),
            response: o.text.clone(),
            thinking: o.thinking.clone(),
            error: crate::llm::clone_opt_string(&b.error),
            usage: if o.usage.is_some() { o.usage } else { b.usage },
            fallback: o.fallback || b.fallback,
            elapsed_ms,
        },
        Err(e) => AttemptLog {
            at: b.at,
            ok: Some(false),
            response: b.response.clone(),
            thinking: b.thinking.clone(),
            error: Some(e.message.clone()),
            usage: b.usage,
            fallback: b.fallback,
            elapsed_ms,
        },
    };
    let ghost before = log.attempts@;
    proof {
        lemma_elapsed_update(before, idx as int, a);
    }
    log.attempts.set(idx, a);
    assert(log.attempts@ == before.update(idx as int, a));
    let mut total: u64 = 0;
    let mut k: usize = 0;
    while k < log.attempts.len()
        invariant
            k <= log.attempts@.len(),
            total == elapsed_sum(log.attempts@.take(k as int)),
            elapsed_sum(log.attempts@) <= u64::MAX,
        decreases log.attempts@.len() - k,
    {
        proof {
            lemma_elapsed_prefix(log.attempts@, k as int + 1);
            assert(log.attempts@.take(k as int + 1).drop_last() =~= log.attempts@.take(k as int));
        }
        total = total + log.attempts[k].elapsed_ms;
        k = k + 1;
    }
    assert(log.attempts@.take(k as int) =~= log.attempts@);
    log.ok = Some(result.is_ok());
    log.elapsed_ms = total;
}

} // verus!
