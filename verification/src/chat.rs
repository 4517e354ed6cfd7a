//! Chat sessions that edit project documents: sessions and messages, the
//! context sent to the model, and the whole-file edit proposals parsed from
//! its replies (drafts that are written only once the user confirms them).

use vstd::prelude::*;
use crate::evidence::{copy_strings, strings_view};
use crate::llm::{json_text_spec, json_bounds, json_string_member, json_str_member, opt_opt_view, fence};
use crate::paths::{folder_name, folder_name_spec, rel_path_ok, check_relative_path};
use crate::text::{
    first_occ, find_occ, lemma_first_occ_ge,
    chars_of, decimal, extend_range, find_from, is_blank, occurs_at, push_decimal, push_str_chars,
    slice_to_vec, string_of, trim, trim_span,
};

verus! {

/// Messages of history sent with each request.
pub const HISTORY_MAX_MESSAGES: usize = 20;
/// Characters of one attached file sent to the model.
pub const ATTACHMENT_MAX_CHARS: usize = 30000;
/// Title of a session before its first user message names it.
pub const NEW_SESSION_TITLE: &'static str = "新会话";

/// A whole-file overwrite proposed by the model.
#[derive(Debug, Clone, PartialEq)]
pub struct Proposal {
    pub id: String,
    /// Path relative to the project.
    pub file: String,
    /// The complete new content of the file.
    pub content: String,
    pub applied: bool,
    pub applied_at: Option<u64>,
}

#[derive(Debug, Clone, PartialEq)]
pub struct ChatMessage {
    /// `user` or `assistant`.
    pub role: String,
    pub content: String,
    pub at: u64,
    /// Project files the user message refers to.
    pub attachments: Vec<String>,
    /// Proposals parsed from an assistant message.
    pub proposals: Vec<Proposal>,
}

#[derive(Debug, Clone, PartialEq)]
pub struct Session {
    pub id: String,
    pub title: String,
    pub created_at: u64,
    pub updated_at: u64,
    /// Sequence number of the next proposal (unique within the session).
    pub next_proposal_seq: u64,
    pub messages: Vec<ChatMessage>,
}

#[derive(Debug, Clone, PartialEq)]
pub struct SessionSummary {
    pub id: String,
    pub title: String,
    pub created_at: u64,
    pub updated_at: u64,
    pub message_count: usize,
}

#[derive(Debug, Clone, PartialEq)]
pub struct SessionDetail {
    pub id: String,
    pub title: String,
    pub created_at: u64,
    pub updated_at: u64,
    pub messages: Vec<ChatMessage>,
}

pub type ProposalV = (Seq<char>, Seq<char>, Seq<char>, bool, Option<u64>);

pub type MessageV = (Seq<char>, Seq<char>, u64, Seq<Seq<char>>, Seq<ProposalV>);

pub open spec fn proposal_view(p: Proposal) -> ProposalV {
    (p.id@, p.file@, p.content@, p.applied, p.applied_at)
}

pub open spec fn proposals_view(ps: Seq<Proposal>) -> Seq<ProposalV> {
    ps.map_values(|p: Proposal| proposal_view(p))
}

pub open spec fn message_view(m: ChatMessage) -> MessageV {
    (m.role@, m.content@, m.at, strings_view(m.attachments@), proposals_view(m.proposals@))
}

pub open spec fn messages_view(ms: Seq<ChatMessage>) -> Seq<MessageV> {
    ms.map_values(|m: ChatMessage| message_view(m))
}

pub fn copy_proposal(p: &Proposal) -> (r: Proposal)
    ensures
        proposal_view(r) == proposal_view(*p),
{
    Proposal {
        id: p.id.clone(),
        file: p.file.clone(),
        content: p.content.clone(),
        applied: p.applied,
        applied_at: p.applied_at,
    }
}

pub fn copy_proposals(v: &[Proposal]) -> (r: Vec<Proposal>)
    ensures
        proposals_view(r@) == proposals_view(v@),
{
    let mut r: Vec<Proposal> = Vec::new();
    let mut i: usize = 0;
    while i < v.len()
        invariant
            i <= v@.len(),
            proposals_view(r@) == proposals_view(v@).take(i as int),
        decreases v@.len() - i,
    {
        let ghost prev = r@;
        r.push(copy_proposal(&v[i]));
        assert(proposals_view(r@) =~= proposals_view(prev).push(proposal_view(v@[i as int])));
        assert(proposals_view(v@).take(i + 1) =~= proposals_view(v@).take(i as int).push(proposal_view(v@[i as int])));
        i += 1;
    }
    assert(proposals_view(v@).take(v@.len() as int) =~= proposals_view(v@));
    r
}

pub fn copy_message(m: &ChatMessage) -> (r: ChatMessage)
    ensures
        message_view(r) == message_view(*m),
{
    ChatMessage {
        role: m.role.clone(),
        content: m.content.clone(),
        at: m.at,
        attachments: copy_strings(&m.attachments),
        proposals: copy_proposals(&m.proposals),
    }
}

pub fn copy_messages(v: &[ChatMessage]) -> (r: Vec<ChatMessage>)
    ensures
        messages_view(r@) == messages_view(v@),
{
    let mut r: Vec<ChatMessage> = Vec::new();
    let mut i: usize = 0;
    while i < v.len()
        invariant
            i <= v@.len(),
            messages_view(r@) == messages_view(v@).take(i as int),
        decreases v@.len() - i,
    {
        let ghost prev = r@;
        r.push(copy_message(&v[i]));
        assert(messages_view(r@) =~= messages_view(prev).push(message_view(v@[i as int])));
        assert(messages_view(v@).take(i + 1) =~= messages_view(v@).take(i as int).push(message_view(v@[i as int])));
        i += 1;
    }
    assert(messages_view(v@).take(v@.len() as int) =~= messages_view(v@));
    r
}

impl Session {
    /// The list entry of the session.
    pub fn summary(&self) -> (r: SessionSummary)
        ensures
            r.id@ == self.id@,
            r.title@ == self.title@,
            r.created_at == self.created_at,
            r.updated_at == self.updated_at,
            r.message_count == self.messages@.len(),
    {
        SessionSummary {
            id: self.id.clone(),
            title: self.title.clone(),
            created_at: self.created_at,
            updated_at: self.updated_at,
            message_count: self.messages.len(),
        }
    }

    /// The session as shown when opened.
    pub fn detail(&self) -> (r: SessionDetail)
        ensures
            r.id@ == self.id@,
            r.title@ == self.title@,
            r.created_at == self.created_at,
            r.updated_at == self.updated_at,
            messages_view(r.messages@) == messages_view(self.messages@),
    {
        SessionDetail {
            id: self.id.clone(),
            title: self.title.clone(),
            created_at: self.created_at,
            updated_at: self.updated_at,
            messages: copy_messages(&self.messages),
        }
    }
}

/// Title of a new session: the trimmed title, or the default title when blank.
pub open spec fn session_title(title: Seq<char>) -> Seq<char> {
    if trim(title).len() == 0 {
        NEW_SESSION_TITLE@
    } else {
        trim(title)
    }
}

/// A new session, given its id and the current time:
/// an empty session whose proposal numbering starts at 1.
pub fn create_session(id: String, title: &str, now: u64) -> (r: Session)
    ensures
        r.id == id,
        r.title@ == session_title(title@),
        r.created_at == now,
        r.updated_at == now,
        r.next_proposal_seq == 1,
        r.messages@.len() == 0,
{
    let t = if is_blank(title) {
        NEW_SESSION_TITLE.to_owned()
    } else {
        crate::text::trimmed(title)
    };
    Session { id, title: t, created_at: now, updated_at: now, next_proposal_seq: 1, messages: Vec::new() }
}

/// The title a session has after `msg` is added: a session still under the
/// default title takes the first 20 characters of its first user message,
/// when they are not blank.
pub open spec fn title_after(title: Seq<char>, role: Seq<char>, content: Seq<char>) -> Seq<char> {
    let head = content.take(if content.len() < 20 { content.len() as int } else { 20 });
    if role == "user"@ && title == NEW_SESSION_TITLE@ && trim(head).len() > 0 {
        head
    } else {
        title
    }
}

/// Adds a message to a session (the caller saves it):
/// appends the message, names an untitled session after its first user
/// message, and stamps the update time.
pub fn push_message(session: &mut Session, msg: ChatMessage, now: u64)
    ensures
        final(session).title@ == title_after(old(session).title@, msg.role@, msg.content@),
        messages_view(final(session).messages@) == messages_view(old(session).messages@).push(message_view(msg)),
        final(session).updated_at == now,
        final(session).id == old(session).id,
        final(session).created_at == old(session).created_at,
        final(session).next_proposal_seq == old(session).next_proposal_seq,
{
    let is_user = crate::text::str_eq(&msg.role, "user");
    let untitled = crate::text::str_eq(&session.title, NEW_SESSION_TITLE);
    if is_user && untitled {
        let v = chars_of(&msg.content);
        let n = if v.len() < 20 { v.len() } else { 20 };
        let head = slice_to_vec(&v, 0, n);
        assert(head@ =~= msg.content@.take(n as int));
        let (a, b) = trim_span(&head, 0, head.len());
        assert(head@.subrange(0, head@.len() as int) =~= head@);
        if a != b {
            session.title = string_of(&head);
        }
    }
    let ghost before = session.messages@;
    session.messages.push(msg);
    assert(messages_view(session.messages@) =~= messages_view(before).push(message_view(msg)));
    session.updated_at = now;
}

/// Error of an append to a session that could not be read.
pub const SESSION_MISSING: &'static str = "会话不存在";

/// The session as read (none when it is missing) after `push_message`,
/// or the error of a missing session.
pub fn append_message(loaded: Option<Session>, msg: ChatMessage, now: u64) -> (r: Result<Session, String>)
    ensures
        loaded is None <==> r is Err,
        r matches Err(e) ==> e@ == SESSION_MISSING@,
        loaded matches Some(session) ==> (r matches Ok(t) && {
            &&& t.title@ == title_after(session.title@, msg.role@, msg.content@)
            &&& messages_view(t.messages@) == messages_view(session.messages@).push(message_view(msg))
            &&& t.updated_at == now
            &&& t.id == session.id
            &&& t.created_at == session.created_at
            &&& t.next_proposal_seq == session.next_proposal_seq
        }),
{
    match loaded {
        Some(session) => {
            let mut s = session;
            push_message(&mut s, msg, now);
            Ok(s)
        },
        None => Err(SESSION_MISSING.to_owned()),
    }
}

// ---- context sent to the model ----

pub const PROMPT_INTRO: &'static str = "你是 shiro 写作软件中的 AI 写作助手，帮助用户创作与修改项目文档。当前项目：";
pub const PROMPT_TREE: &'static str = "\n\n## 项目结构\n```\n";
pub const PROMPT_RULES: &'static str = "```\n\n## 修改提案\n需要修改或新建项目文档时，在回复中用 shiro-edit 代码块给出提案，每个提案一个块：\n```shiro-edit\n{\"file\": \"正文/第一卷/001.md\", \"content\": \"修改后的完整文件内容\"}\n```\n规则：\n- file 是项目内相对路径；content 必须是修改后的完整文件内容（整文件覆盖，不是增量 diff）\n- 一条回复可以给出多个提案\n- 提案不会直接生效，用户确认后才写入文件\n- 不涉及文件修改时正常回答，不要输出 shiro-edit 块\n- 回复使用中文";

pub open spec fn system_prompt_spec(root: Seq<char>, tree: Seq<char>) -> Seq<char> {
    PROMPT_INTRO@ + folder_name_spec(root) + PROMPT_TREE@ + tree + PROMPT_RULES@
}

/// The system prompt of a chat, given the project folder and the text of
/// its tree: the assistant's role, the project name, its structure, and the
/// rules of the `shiro-edit` proposal blocks.
pub fn system_prompt(root: &str, tree_text: &str) -> (r: String)
    ensures
        r@ == system_prompt_spec(root@, tree_text@),
{
    let mut out: Vec<char> = Vec::new();
    push_str_chars(&mut out, PROMPT_INTRO);
    let name = folder_name(root);
    push_str_chars(&mut out, &name);
    push_str_chars(&mut out, PROMPT_TREE);
    push_str_chars(&mut out, tree_text);
    push_str_chars(&mut out, PROMPT_RULES);
    string_of(&out)
}

pub const ATTACHMENT_CUT: &'static str = "\n…（已截断，全文 ";
pub const ATTACHMENT_CUT_END: &'static str = " 字）";
pub const ATTACHMENT_MISSING: &'static str = "（文件不存在或不可读：";
pub const ATTACHMENT_MISSING_END: &'static str = "）";

/// What the model is shown of an attached file: the content, its first
/// 30000 characters and a note of its length when longer, or a note that
/// the file could not be read.
pub open spec fn attachment_spec(rel: Seq<char>, content: Option<Seq<char>>) -> Seq<char> {
    match content {
        Some(text) => if text.len() <= ATTACHMENT_MAX_CHARS {
            text
        } else {
            text.take(ATTACHMENT_MAX_CHARS as int) + ATTACHMENT_CUT@ + decimal(text.len()) + ATTACHMENT_CUT_END@
        },
        None => ATTACHMENT_MISSING@ + rel + ATTACHMENT_MISSING_END@,
    }
}

/// The text of an attached file, given its content (none when it
/// could not be read).
pub fn attachment_text(rel: &str, content: Option<String>) -> (r: String)
    ensures
        r@ == attachment_spec(rel@, match content {
            Some(t) => Some(t@),
            None => None,
        }),
{
    match content {
        Some(text) => {
            let v = chars_of(&text);
            if v.len() <= ATTACHMENT_MAX_CHARS {
                text
            } else {
                let mut out = slice_to_vec(&v, 0, ATTACHMENT_MAX_CHARS);
                assert(out@ =~= text@.take(ATTACHMENT_MAX_CHARS as int));
                push_str_chars(&mut out, ATTACHMENT_CUT);
                push_decimal(&mut out, v.len() as u64);
                push_str_chars(&mut out, ATTACHMENT_CUT_END);
                string_of(&out)
            }
        },
        None => {
            let mut out: Vec<char> = Vec::new();
            push_str_chars(&mut out, ATTACHMENT_MISSING);
            push_str_chars(&mut out, rel);
            push_str_chars(&mut out, ATTACHMENT_MISSING_END);
            string_of(&out)
        },
    }
}

pub type LlmMessageV = (Seq<char>, Seq<char>);

pub open spec fn llm_message_view(m: crate::llm::ChatMessage) -> LlmMessageV {
    (m.role@, m.content@)
}

pub open spec fn llm_messages_view(ms: Seq<crate::llm::ChatMessage>) -> Seq<LlmMessageV> {
    ms.map_values(|m: crate::llm::ChatMessage| llm_message_view(m))
}

/// The history part of the request: user and assistant messages, in order,
/// other roles skipped.
pub open spec fn history_spec(ms: Seq<MessageV>) -> Seq<LlmMessageV>
    decreases ms.len(),
{
    if ms.len() == 0 {
        seq![]
    } else {
        let m = ms.last();
        let rest = history_spec(ms.drop_last());
        if m.0 == "user"@ || m.0 == "assistant"@ {
            rest.push((m.0, m.1))
        } else {
            rest
        }
    }
}

/// Law of the request history: each message is passed on by itself, a user
/// or assistant message with its own role and content and any other message
/// not at all, so the history of two runs of messages is the history of the
/// first followed by that of the second.
pub proof fn law_history_keeps_roles(a: Seq<MessageV>, b: Seq<MessageV>, m: MessageV)
    ensures
        history_spec(a + b) == history_spec(a) + history_spec(b),
        (m.0 == "user"@ || m.0 == "assistant"@) ==> history_spec(seq![m]) == seq![(m.0, m.1)],
        !(m.0 == "user"@ || m.0 == "assistant"@) ==> history_spec(seq![m]).len() == 0,
    decreases b.len(),
{
    assert(seq![m].drop_last() =~= Seq::<MessageV>::empty());
    assert(seq![m].last() == m);
    assert(history_spec(Seq::<MessageV>::empty()) == Seq::<LlmMessageV>::empty());
    assert(Seq::<LlmMessageV>::empty().push((m.0, m.1)) =~= seq![(m.0, m.1)]);
    if b.len() == 0 {
        assert(a + b =~= a);
    } else {
        law_history_keeps_roles(a, b.drop_last(), m);
        assert((a + b).drop_last() =~= a + b.drop_last());
        assert((a + b).last() == b.last());
    }
}

/// First message of the history window (the last 20 messages).
pub open spec fn history_start(n: nat) -> int {
    if n > HISTORY_MAX_MESSAGES { n - HISTORY_MAX_MESSAGES } else { 0 }
}

/// The block of one attached file in the user message.
pub open spec fn attachment_block(rel: Seq<char>, text: Seq<char>) -> Seq<char> {
    "\n【引用文件："@ + rel + "】\n"@ + text + "\n【引用结束】\n"@
}

/// The attached files' blocks, in order.
pub open spec fn attachment_blocks(files: Seq<(Seq<char>, Seq<char>)>) -> Seq<char>
    decreases files.len(),
{
    if files.len() == 0 {
        seq![]
    } else {
        attachment_blocks(files.drop_last()) + attachment_block(files.last().0, files.last().1)
    }
}

pub open spec fn pairs_view(v: Seq<(String, String)>) -> Seq<(Seq<char>, Seq<char>)> {
    v.map_values(|p: (String, String)| (p.0@, p.1@))
}

/// The messages sent to the model, given the system prompt and each
/// attached file with the text shown of it (see `attachment_text`): the
/// system message, the user and assistant messages among the last 20 of the
/// session, and the user message with the attached files before its text.
pub fn build_llm_messages(
    system: &str,
    session: &Session,
    user_content: &str,
    attachments: &[(String, String)],
) -> (r: Vec<crate::llm::ChatMessage>)
    ensures
        llm_messages_view(r@) == seq![("system"@, system@)]
            + history_spec(messages_view(session.messages@).skip(history_start(session.messages@.len())))
            + seq![("user"@, attachment_blocks(pairs_view(attachments@)) + user_content@)],
{
    let mut out: Vec<crate::llm::ChatMessage> = Vec::new();
    out.push(crate::llm::ChatMessage { role: "system".to_owned(), content: system.to_owned() });
    let n = session.messages.len();
    let start = if n > HISTORY_MAX_MESSAGES { n - HISTORY_MAX_MESSAGES } else { 0 };
    let ghost all = messages_view(session.messages@).skip(start as int);
    let mut i = start;
    while i < n
        invariant
            start <= i <= n == session.messages@.len(),
            all == messages_view(session.messages@).skip(start as int),
            llm_messages_view(out@) == seq![("system"@, system@)] + history_spec(all.take(i - start)),
        decreases n - i,
    {
        let m = &session.messages[i];
        let ghost prev = out@;
        assert(all.take(i + 1 - start).drop_last() =~= all.take(i - start));
        assert(all.take(i + 1 - start).last() == message_view(*m));
        let is_user = crate::text::str_eq(&m.role, "user");
        let is_assistant = crate::text::str_eq(&m.role, "assistant");
        if is_user || is_assistant {
            out.push(crate::llm::ChatMessage { role: m.role.clone(), content: m.content.clone() });
            assert(llm_messages_view(out@) =~= llm_messages_view(prev).push((m.role@, m.content@)));
        }
        i += 1;
    }
    assert(all.take(n - start) =~= all);
    let mut content: Vec<char> = Vec::new();
    let mut k: usize = 0;
    while k < attachments.len()
        invariant
            k <= attachments@.len(),
            content@ == attachment_blocks(pairs_view(attachments@).take(k as int)),
        decreases attachments@.len() - k,
    {
        let (rel, text) = &attachments[k];
        let ghost before = content@;
        push_str_chars(&mut content, "\n【引用文件：");
        push_str_chars(&mut content, rel);
        push_str_chars(&mut content, "】\n");
        push_str_chars(&mut content, text);
        push_str_chars(&mut content, "\n【引用结束】\n");
        assert(pairs_view(attachments@).take(k + 1).drop_last() =~= pairs_view(attachments@).take(k as int));
        assert(content@ =~= before + attachment_block(rel@, text@));
        k += 1;
    }
    assert(pairs_view(attachments@).take(attachments@.len() as int) =~= pairs_view(attachments@));
    push_str_chars(&mut content, user_content);
    let ghost prev = out@;
    out.push(crate::llm::ChatMessage { role: "user".to_owned(), content: string_of(&content) });
    assert(llm_messages_view(out@) =~= llm_messages_view(prev).push(("user"@, attachment_blocks(pairs_view(attachments@)) + user_content@)));
    out
}

// ---- proposals ----

/// The opening line of a proposal block.
pub open spec fn edit_tag() -> Seq<char> {
    seq!['`', '`', '`', 's', 'h', 'i', 'r', 'o', '-', 'e', 'd', 'i', 't']
}

/// Bodies of the proposal blocks of `s` from `pos` on: each runs from the
/// line after an opening `shiro-edit` fence to the next closing fence.
pub open spec fn edit_blocks_from(s: Seq<char>, pos: int) -> Seq<Seq<char>>
    decreases s.len() - pos,
{
    if pos < 0 || pos > s.len() {
        seq![]
    } else {
        match first_occ(s, edit_tag(), pos) {
            None => seq![],
            Some(st) => match first_occ(s, seq!['\n'], st) {
                None => seq![],
                Some(nl) => match first_occ(s, fence(), nl + 1) {
                    None => seq![],
                    Some(end) => {
                        proof {
                            lemma_first_occ_ge(s, edit_tag(), pos);
                            lemma_first_occ_ge(s, seq!['\n'], st);
                            lemma_first_occ_ge(s, fence(), nl + 1);
                        }
                        seq![s.subrange(nl + 1, end)] + edit_blocks_from(s, end + 3)
                    },
                },
            },
        }
    }
}

pub open spec fn text_or_empty(o: Option<Seq<char>>) -> Seq<char> {
    match o {
        Some(t) => t,
        None => Seq::<char>::empty(),
    }
}

/// The edit that the `file` and `content` members of a block describe: the
/// trimmed file, which must be a legal relative path, and a non-empty content.
pub open spec fn edit_from_members(file: Option<Option<Seq<char>>>, content: Option<Option<Seq<char>>>)
    -> Option<(Seq<char>, Seq<char>)>
{
    match (file, content) {
        (Some(f), Some(c)) => {
            let fv = trim(text_or_empty(f));
            let cv = text_or_empty(c);
            if fv.len() > 0 && rel_path_ok(fv) && cv.len() > 0 {
                Some((fv, cv))
            } else {
                None
            }
        },
        _ => None,
    }
}

/// The edit of a block: the members of the JSON text inside it.
pub open spec fn edit_of(block: Seq<char>) -> Option<(Seq<char>, Seq<char>)> {
    match json_text_spec(block) {
        Err(_) => None,
        Ok(j) => edit_from_members(json_string_member(j, "file"@), json_string_member(j, "content"@)),
    }
}

/// The edits of the blocks that describe one, in order.
pub open spec fn edits_of(blocks: Seq<Seq<char>>) -> Seq<(Seq<char>, Seq<char>)>
    decreases blocks.len(),
{
    if blocks.len() == 0 {
        seq![]
    } else {
        let rest = edits_of(blocks.drop_last());
        match edit_of(blocks.last()) {
            Some(e) => rest.push(e),
            None => rest,
        }
    }
}

/// The id of the proposal numbered `n`: `p{n}`.
pub open spec fn proposal_id(n: nat) -> Seq<char> {
    seq!['p'] + decimal(n)
}

/// The edit that a block's `file` and `content` members describe (see
/// `edit_from_members`).
pub fn edit_from_json_members(file: Option<Option<String>>, content: Option<Option<String>>) -> (r: Option<(String, String)>)
    ensures
        match r {
            Some((f, c)) => edit_from_members(opt_opt_view(file), opt_opt_view(content)) == Some((f@, c@)),
            None => edit_from_members(opt_opt_view(file), opt_opt_view(content)) is None,
        },
{
    match (file, content) {
        (Some(f), Some(c)) => {
            let fs = match f {
                Some(x) => x,
                None => String::new(),
            };
            let cs = match c {
                Some(x) => x,
                None => String::new(),
            };
            let ft = crate::text::trimmed(&fs);
            let fv = chars_of(&ft);
            let cv = chars_of(&cs);
            if fv.len() > 0 && check_relative_path(&ft).is_ok() && cv.len() > 0 {
                Some((ft, cs))
            } else {
                None
            }
        },
        _ => None,
    }
}

/// The next block from `pos` on: its body bounds and where the search goes on.
fn next_block(s: &[char], tag: &[char], nl: &[char], f: &[char], pos: usize) -> (r: Option<(usize, usize, usize)>)
    requires
        pos <= s@.len(),
        tag@ == edit_tag(),
        nl@ == seq!['\n'],
        f@ == fence(),
    ensures
        match r {
            None => edit_blocks_from(s@, pos as int) == Seq::<Seq<char>>::empty(),
            Some((lo, hi, next)) => lo <= hi && hi + 3 == next && pos < next <= s@.len()
                && edit_blocks_from(s@, pos as int) == seq![s@.subrange(lo as int, hi as int)] + edit_blocks_from(s@, next as int),
        },
{
    assert(s@.len() == s.len());
    let st = match find_occ(s, tag, pos) {
        Some(st) => st,
        None => {
            return None;
        },
    };
    proof {
        lemma_first_occ_ge(s@, tag@, pos as int);
    }
    let n = match find_occ(s, nl, st) {
        Some(n) => n,
        None => {
            return None;
        },
    };
    proof {
        lemma_first_occ_ge(s@, nl@, st as int);
    }
    let end = match find_occ(s, f, n + 1) {
        Some(e) => e,
        None => {
            return None;
        },
    };
    proof {
        lemma_first_occ_ge(s@, f@, n + 1);
    }
    Some((n + 1, end, end + 3))
}

/// The proposals of the `shiro-edit`
/// blocks of a reply, numbered from the session's counter, which moves past
/// them; blocks without valid JSON, a legal file or a content are skipped.
pub fn parse_proposals(session: &mut Session, text: &str) -> (r: Vec<Proposal>)
    requires
        old(session).next_proposal_seq + text@.len() <= u64::MAX,
    ensures
        ({
            let es = edits_of(edit_blocks_from(text@, 0));
            &&& r@.len() == es.len()
            &&& forall|k: int| 0 <= k < es.len() ==> #[trigger] proposal_view(r@[k])
                == (proposal_id((old(session).next_proposal_seq + k) as nat), es[k].0, es[k].1, false, None::<u64>)
            &&& final(session).next_proposal_seq == old(session).next_proposal_seq + es.len()
        }),
        final(session).id == old(session).id,
        final(session).title == old(session).title,
        final(session).created_at == old(session).created_at,
        final(session).updated_at == old(session).updated_at,
        final(session).messages == old(session).messages,
{
    let s = chars_of(text);
    let tag = vec!['`', '`', '`', 's', 'h', 'i', 'r', 'o', '-', 'e', 'd', 'i', 't'];
    let nl = vec!['\n'];
    let f = vec!['`', '`', '`'];
    assert(tag@ =~= edit_tag());
    assert(nl@ =~= seq!['\n']);
    assert(f@ =~= fence());
    let ghost seq0 = session.next_proposal_seq;
    let mut out: Vec<Proposal> = Vec::new();
    let mut pos: usize = 0;
    let ghost mut done: Seq<Seq<char>> = seq![];
    let mut finished = false;
    assert(done + edit_blocks_from(s@, 0) =~= edit_blocks_from(s@, 0));
    while !finished
        invariant
            pos <= s@.len(),
            s@ == text@,
            tag@ == edit_tag(),
            nl@ == seq!['\n'],
            f@ == fence(),
            seq0 + text@.len() <= u64::MAX,
            edit_blocks_from(s@, 0) == done + edit_blocks_from(s@, pos as int),
            finished ==> edit_blocks_from(s@, pos as int) == Seq::<Seq<char>>::empty(),
            edits_of(done).len() <= pos,
            session.next_proposal_seq == seq0 + edits_of(done).len(),
            out@.len() == edits_of(done).len(),
            forall|k: int| 0 <= k < out@.len() ==> #[trigger] proposal_view(out@[k])
                == (proposal_id((seq0 + k) as nat), edits_of(done)[k].0, edits_of(done)[k].1, false, None::<u64>),
            session.id == old(session).id,
            session.title == old(session).title,
            session.created_at == old(session).created_at,
            session.updated_at == old(session).updated_at,
            session.messages == old(session).messages,
        decreases s@.len() - pos + (if finished { 0int } else { 1int }),
    {
        match next_block(&s, &tag, &nl, &f, pos) {
            None => {
                finished = true;
            },
            Some((lo, hi, next)) => {
                let body = slice_to_vec(&s, lo, hi);
                let ghost b = s@.subrange(lo as int, hi as int);
                assert(body@ == b);
                proof {
                    assert(done.push(b).drop_last() =~= done);
                    assert(done + edit_blocks_from(s@, pos as int) =~= done.push(b) + edit_blocks_from(s@, next as int));
                }
                let edit = match json_bounds(&body) {
                    Ok((x, y)) => {
                        let j = string_of(&slice_to_vec(&body, x, y));
                        let fm = json_str_member(&j, "file");
                        let cm = json_str_member(&j, "content");
                        edit_from_json_members(fm, cm)
                    },
                    Err(_) => None,
                };
                assert(edits_of(done.push(b)) == match edit_of(b) {
                    Some(e) => edits_of(done).push(e),
                    None => edits_of(done),
                });
                match edit {
                    Some((file, content)) => {
                        let mut id: Vec<char> = vec!['p'];
                        push_decimal(&mut id, session.next_proposal_seq);
                        assert(id@ =~= proposal_id(session.next_proposal_seq as nat));
                        let ghost before = out@;
                        out.push(Proposal { id: string_of(&id), file, content, applied: false, applied_at: None });
                        session.next_proposal_seq = session.next_proposal_seq + 1;
                        assert forall|k: int| 0 <= k < out@.len() implies #[trigger] proposal_view(out@[k])
                            == (proposal_id((seq0 + k) as nat), edits_of(done.push(b))[k].0, edits_of(done.push(b))[k].1, false, None::<u64>) by {
                            if k < before.len() {
                                assert(out@[k] == before[k]);
                            }
                        }
                    },
                    None => {},
                }
                proof {
                    done = done.push(b);
                }
                pos = next;
            },
        }
    }
    assert(done + Seq::<Seq<char>>::empty() =~= done);
    out
}

/// Position of proposal `id`: the first message that holds it, and its index there.
pub open spec fn holds_proposal(m: ChatMessage, id: Seq<char>) -> bool {
    exists|p: int| 0 <= p < m.proposals@.len() && (#[trigger] m.proposals@[p]).id@ == id
}

/// What `check_apply` answers (see there).
pub open spec fn apply_check(session: Session, id: Seq<char>, r: Result<(usize, usize), String>) -> bool {
        match r {
            Ok((mi, pi)) => mi < session.messages@.len() && pi < session.messages@[mi as int].proposals@.len()
                && session.messages@[mi as int].proposals@[pi as int].id@ == id
                && (forall|m: int| 0 <= m < mi ==> !holds_proposal(#[trigger] session.messages@[m], id))
                && (forall|p: int| 0 <= p < pi ==> (#[trigger] session.messages@[mi as int].proposals@[p]).id@ != id)
                && !session.messages@[mi as int].proposals@[pi as int].applied
                && rel_path_ok(session.messages@[mi as int].proposals@[pi as int].file@),
            Err(e) => (forall|m: int| 0 <= m < session.messages@.len() ==> !holds_proposal(#[trigger] session.messages@[m], id))
                    && e@ == "提案不存在"@
                || (exists|m: int, p: int| 0 <= m < session.messages@.len() && 0 <= p < session.messages@[m].proposals@.len()
                    && (#[trigger] session.messages@[m].proposals@[p]).id@ == id
                    && (forall|m2: int| 0 <= m2 < m ==> !holds_proposal(#[trigger] session.messages@[m2], id))
                    && (forall|p2: int| 0 <= p2 < p ==> (#[trigger] session.messages@[m].proposals@[p2]).id@ != id)
                    && (if session.messages@[m].proposals@[p].applied {
                        e@ == "提案已应用"@
                    } else {
                        !rel_path_ok(session.messages@[m].proposals@[p].file@) && e@ == "非法的文件路径"@
                    })),
        }
}

/// The checks made before a proposal's file is written:
/// the position of proposal `id` (first message holding it, first index in
/// that message), or why it cannot be applied.
pub fn check_apply(session: &Session, id: &str) -> (r: Result<(usize, usize), String>)
    ensures
        apply_check(*session, id@, r),
{
    let target = id.to_owned();
    let mut mi: usize = 0;
    while mi < session.messages.len()
        invariant
            mi <= session.messages@.len(),
            target@ == id@,
            forall|m: int| 0 <= m < mi ==> !holds_proposal(#[trigger] session.messages@[m], id@),
        decreases session.messages@.len() - mi,
    {
        let msg = &session.messages[mi];
        let mut pi: usize = 0;
        while pi < msg.proposals.len()
            invariant
                pi <= msg.proposals@.len(),
                mi < session.messages@.len(),
                *msg == session.messages@[mi as int],
                target@ == id@,
                forall|m: int| 0 <= m < mi ==> !holds_proposal(#[trigger] session.messages@[m], id@),
                forall|p: int| 0 <= p < pi ==> (#[trigger] msg.proposals@[p]).id@ != id@,
            decreases msg.proposals@.len() - pi,
        {
            if msg.proposals[pi].id == target {
                let p = &msg.proposals[pi];
                assert(session.messages@[mi as int].proposals@[pi as int].id@ == id@);
                if p.applied {
                    return Err("提案已应用".to_owned());
                }
                if check_relative_path(&p.file).is_err() {
                    return Err("非法的文件路径".to_owned());
                }
                return Ok((mi, pi));
            }
            pi += 1;
        }
        assert(!holds_proposal(*msg, id@));
        mi += 1;
    }
    Err("提案不存在".to_owned())
}

/// What `mark_applied` does to the session (see there).
pub open spec fn applied_post(old: Session, mi: usize, pi: usize, now: u64, new: Session, r: Proposal) -> bool {
    let p = old.messages@[mi as int].proposals@[pi as int];
    &&& proposal_view(r) == (p.id@, p.file@, p.content@, true, Some(now))
    &&& messages_view(new.messages@) == messages_view(old.messages@).update(
        mi as int,
        ({
            let m = message_view(old.messages@[mi as int]);
            (m.0, m.1, m.2, m.3, m.4.update(pi as int, proposal_view(r)))
        }),
    )
}

/// Marks the proposal at `(mi, pi)` applied at `now` and returns it.
pub fn mark_applied(session: &mut Session, mi: usize, pi: usize, now: u64) -> (r: Proposal)
    requires
        mi < old(session).messages@.len(),
        pi < old(session).messages@[mi as int].proposals@.len(),
    ensures
        applied_post(*old(session), mi, pi, now, *final(session), r),
        final(session).id == old(session).id,
        final(session).title == old(session).title,
        final(session).created_at == old(session).created_at,
        final(session).updated_at == old(session).updated_at,
        final(session).next_proposal_seq == old(session).next_proposal_seq,
{
    let ghost old_msgs = session.messages@;
    let mut msgs: Vec<ChatMessage> = Vec::new();
    std::mem::swap(&mut msgs, &mut session.messages);
    let mut msg = msgs.remove(mi);
    let ghost old_msg = msg;
    let mut ps: Vec<Proposal> = Vec::new();
    std::mem::swap(&mut ps, &mut msg.proposals);
    let mut p = ps.remove(pi);
    p.applied = true;
    p.applied_at = Some(now);
    let out = copy_proposal(&p);
    ps.insert(pi, p);
    assert(proposals_view(ps@) =~= proposals_view(old_msg.proposals@).update(pi as int, proposal_view(out)));
    msg.proposals = ps;
    msgs.insert(mi, msg);
    assert(messages_view(msgs@) =~= messages_view(old_msgs).update(mi as int, ({
        let m = message_view(old_msgs[mi as int]);
        (m.0, m.1, m.2, m.3, m.4.update(pi as int, proposal_view(out)))
    })));
    session.messages = msgs;
    out
}

#[derive(Debug, Clone, PartialEq)]
pub struct ChatProjectRequest {
    pub path: String,
}

#[derive(Debug, Clone, PartialEq)]
pub struct SessionListResponse {
    pub sessions: Vec<SessionSummary>,
}

#[derive(Debug, Clone, PartialEq)]
pub struct CreateSessionRequest {
    pub path: String,
    pub title: Option<String>,
}

#[derive(Debug, Clone, PartialEq)]
pub struct SessionRefRequest {
    pub path: String,
    pub id: String,
}

#[derive(Debug, Clone, PartialEq)]
pub struct SendMessageRequest {
    pub path: String,
    pub id: String,
    pub content: String,
    pub attachments: Vec<String>,
}

#[derive(Debug, Clone, PartialEq)]
pub struct ApplyProposalRequest {
    pub path: String,
    pub id: String,
    pub proposal_id: String,
}

#[derive(Debug, Clone, PartialEq)]
pub struct ApplyProposalResponse {
    pub proposal: Proposal,
}

// ---- laws ----

/// Law of proposal parsing: every edit kept names a legal relative path
/// (not blank, not absolute, no `.` or `..` segment) and brings content.
pub proof fn law_edits_are_legal(blocks: Seq<Seq<char>>)
    ensures
        forall|k: int| 0 <= k < edits_of(blocks).len() ==> {
            let e = #[trigger] edits_of(blocks)[k];
            &&& e.0.len() > 0
            &&& rel_path_ok(e.0)
            &&& e.1.len() > 0
        },
    decreases blocks.len(),
{
    if blocks.len() > 0 {
        law_edits_are_legal(blocks.drop_last());
        let rest = edits_of(blocks.drop_last());
        match edit_of(blocks.last()) {
            Some(e) => {
                let b = blocks.last();
                match json_text_spec(b) {
                    Ok(j) => {
                        let f = json_string_member(j, "file"@);
                        let c = json_string_member(j, "content"@);
                        assert(edit_from_members(f, c) == Some(e));
                    },
                    Err(_) => {},
                }
                assert forall|k: int| 0 <= k < rest.push(e).len() implies {
                    let x = #[trigger] rest.push(e)[k];
                    &&& x.0.len() > 0
                    &&& rel_path_ok(x.0)
                    &&& x.1.len() > 0
                } by {
                    if k < rest.len() {
                        assert(rest.push(e)[k] == rest[k]);
                    }
                }
            },
            None => {},
        }
    }
}

/// Law of proposal ids: the ids `p1`, `p2`, … of a session never repeat,
/// since different counter values give different ids.
pub proof fn law_proposal_ids_distinct(a: nat, b: nat)
    requires
        a != b,
    ensures
        proposal_id(a) != proposal_id(b),
{
    if proposal_id(a) == proposal_id(b) {
        assert(proposal_id(a).skip(1) =~= decimal(a));
        assert(proposal_id(b).skip(1) =~= decimal(b));
        crate::text::lemma_decimal_injective(a, b);
    }
}

proof fn lemma_apply_keeps_ids(s0: Session, s1: Session, mi: usize, pi: usize, now: u64, p: Proposal)
    requires
        mi < s0.messages@.len(),
        pi < s0.messages@[mi as int].proposals@.len(),
        applied_post(s0, mi, pi, now, s1, p),
    ensures
        s1.messages@.len() == s0.messages@.len(),
        forall|m: int| 0 <= m < s0.messages@.len() ==> (#[trigger] s1.messages@[m]).proposals@.len() == s0.messages@[m].proposals@.len(),
        forall|m: int, q: int| 0 <= m < s0.messages@.len() && 0 <= q < s0.messages@[m].proposals@.len()
            ==> (#[trigger] s1.messages@[m].proposals@[q]).id@ == s0.messages@[m].proposals@[q].id@,
        s1.messages@[mi as int].proposals@[pi as int].applied,
{
    let v0 = messages_view(s0.messages@);
    let v1 = messages_view(s1.messages@);
    assert(v1.len() == s1.messages@.len());
    assert forall|m: int| 0 <= m < s0.messages@.len() implies (#[trigger] s1.messages@[m]).proposals@.len() == s0.messages@[m].proposals@.len() by {
        assert(v1[m] == message_view(s1.messages@[m]));
        assert(v0[m] == message_view(s0.messages@[m]));
        assert(proposals_view(s1.messages@[m].proposals@).len() == s1.messages@[m].proposals@.len());
        assert(proposals_view(s0.messages@[m].proposals@).len() == s0.messages@[m].proposals@.len());
    }
    assert forall|m: int, q: int| 0 <= m < s0.messages@.len() && 0 <= q < s0.messages@[m].proposals@.len()
        implies (#[trigger] s1.messages@[m].proposals@[q]).id@ == s0.messages@[m].proposals@[q].id@ by {
        assert(v1[m] == message_view(s1.messages@[m]));
        assert(v0[m] == message_view(s0.messages@[m]));
        assert(proposals_view(s1.messages@[m].proposals@)[q] == proposal_view(s1.messages@[m].proposals@[q]));
        assert(proposals_view(s0.messages@[m].proposals@)[q] == proposal_view(s0.messages@[m].proposals@[q]));
    }
    assert(v1[mi as int] == message_view(s1.messages@[mi as int]));
    assert(proposals_view(s1.messages@[mi as int].proposals@)[pi as int] == proposal_view(s1.messages@[mi as int].proposals@[pi as int]));
}

/// Law of proposal application: once a proposal is applied, asking to
/// apply it again is refused as already applied.
pub proof fn law_apply_once(s0: Session, s1: Session, id: Seq<char>, mi: usize, pi: usize, now: u64, p: Proposal, r: Result<(usize, usize), String>)
    requires
        apply_check(s0, id, Ok((mi, pi))),
        applied_post(s0, mi, pi, now, s1, p),
        apply_check(s1, id, r),
    ensures
        r matches Err(e) && e@ == "提案已应用"@,
{
    lemma_apply_keeps_ids(s0, s1, mi, pi, now, p);
    let m0 = s0.messages@;
    let m1 = s1.messages@;
    assert(m1[mi as int].proposals@[pi as int].id@ == id);
    assert(holds_proposal(m1[mi as int], id));
    assert forall|m: int| 0 <= m < mi implies !holds_proposal(#[trigger] m1[m], id) by {
        if holds_proposal(m1[m], id) {
            let q = choose|q: int| 0 <= q < m1[m].proposals@.len() && (#[trigger] m1[m].proposals@[q]).id@ == id;
            assert(m0[m].proposals@[q].id@ == id);
            assert(holds_proposal(m0[m], id));
        }
    }
    match r {
        Ok((a, b)) => {
            if (a as int) < (mi as int) {
                assert(holds_proposal(m1[a as int], id));
            } else if (a as int) > (mi as int) {
            } else if (b as int) < (pi as int) {
                assert(m0[mi as int].proposals@[b as int].id@ == id);
            }
        },
        Err(e) => {
            if !(e@ == "提案已应用"@) {
                let (m, q) = choose|m: int, q: int| 0 <= m < m1.len() && 0 <= q < m1[m].proposals@.len()
                    && (#[trigger] m1[m].proposals@[q]).id@ == id
                    && (forall|m2: int| 0 <= m2 < m ==> !holds_proposal(#[trigger] m1[m2], id))
                    && (forall|p2: int| 0 <= p2 < q ==> (#[trigger] m1[m].proposals@[p2]).id@ != id)
                    && (if m1[m].proposals@[q].applied {
                        e@ == "提案已应用"@
                    } else {
                        !rel_path_ok(m1[m].proposals@[q].file@) && e@ == "非法的文件路径"@
                    });
                if m < mi {
                    assert(holds_proposal(m1[m], id));
                } else if m == mi && q < pi {
                    assert(m0[mi as int].proposals@[q].id@ == id);
                }
            }
        },
    }
}

/// Law of session titles: a session that has a title of its own keeps it
/// whatever messages follow.
pub proof fn law_title_set_once(title: Seq<char>, role: Seq<char>, content: Seq<char>)
    requires
        title != NEW_SESSION_TITLE@,
    ensures
        title_after(title, role, content) == title,
{
}

proof fn lemma_history_len(ms: Seq<MessageV>)
    ensures
        history_spec(ms).len() <= ms.len(),
    decreases ms.len(),
{
    if ms.len() > 0 {
        lemma_history_len(ms.drop_last());
    }
}

/// Law of the request context: at most 20 messages of history go with a
/// request (so at most 22 messages in all, with the system and user ones).
pub proof fn law_history_window(ms: Seq<MessageV>)
    ensures
        history_spec(ms.skip(history_start(ms.len()))).len() <= HISTORY_MAX_MESSAGES,
{
    lemma_history_len(ms.skip(history_start(ms.len())));
}

} // verus!
