//! Publishing tested links in messages.

use vstd::prelude::*;

use crate::config::Phase5TelegramConfig;
use crate::numbers::{at_least, decimal, decimal_text};
use crate::scraper::{log_worker, says, AppEvent, LogLevel};
use crate::text::{
    join, joined, lines, lines_of, push_text, replace, replaced,
    replaced_character_is_gone, replacing_nothing, texts, trim, trimmed,
};

verus! {

// ---------------------------------------------------------------------------
// Texts
// ---------------------------------------------------------------------------

/// `s` as it stands in a message with markup.
pub open spec fn escaped(s: Seq<char>) -> Seq<char> {
    replaced(replaced(replaced(s, "&"@, "&amp;"@), "<"@, "&lt;"@), ">"@, "&gt;"@)
}

/// `s` as it stands in a message with markup.
pub fn escape_html(text: &str) -> (r: String)
    ensures
        r@ == escaped(text@),
{
    proof {
        reveal_strlit("&");
        reveal_strlit("<");
        reveal_strlit(">");
    }
    let a = replace(text, "&", "&amp;");
    let b = replace(&a, "<", "&lt;");
    replace(&b, ">", "&gt;")
}

/// The groups of `size` lines from position `i` on; the last one may be
/// smaller.
pub open spec fn chunks_from(s: Seq<Seq<char>>, size: int, i: int) -> Seq<Seq<Seq<char>>>
    decreases s.len() - i,
{
    if i < 0 || i >= s.len() || size < 1 {
        Seq::empty()
    } else {
        let end = if s.len() - i < size {
            s.len() as int
        } else {
            i + size
        };
        seq![s.subrange(i, end)] + chunks_from(s, size, end)
    }
}

/// The lines in groups of `size`, at least one in each.
pub open spec fn chunks(s: Seq<Seq<char>>, size: int) -> Seq<Seq<Seq<char>>> {
    chunks_from(s, at_least(size, 1), 0)
}

/// The texts of a list of groups.
pub open spec fn groups(v: Seq<Vec<String>>) -> Seq<Seq<Seq<char>>> {
    Seq::new(v.len(), |i: int| texts(v[i]@))
}

fn copy_range(list: &Vec<String>, from: usize, to: usize) -> (r: Vec<String>)
    requires
        from <= to <= list@.len(),
    ensures
        texts(r@) == texts(list@).subrange(from as int, to as int),
{
    let mut out: Vec<String> = Vec::new();
    let ghost all = texts(list@);
    for i in from..to
        invariant
            from <= to <= list@.len(),
            all == texts(list@),
            texts(out@) == all.subrange(from as int, i as int),
    {
        let ghost before = out@;
        out.push(list[i].clone());
        assert(texts(out@) =~= texts(before).push(all[i as int]));
        assert(all.subrange(from as int, i + 1) =~= all.subrange(from as int, i as int).push(
            all[i as int],
        ));
    }
    out
}

/// The lines in groups of `chunk_size`, at least one in each.
pub fn chunk_lines(lines: &Vec<String>, chunk_size: usize) -> (r: Vec<Vec<String>>)
    ensures
        groups(r@) == chunks(texts(lines@), chunk_size as int),
{
    let size: usize = if chunk_size < 1 {
        1
    } else {
        chunk_size
    };
    let ghost all = texts(lines@);
    let mut out: Vec<Vec<String>> = Vec::new();
    let mut i: usize = 0;
    assert(groups(out@) + chunks_from(all, size as int, 0) =~= chunks(all, chunk_size as int));
    while i < lines.len()
        invariant
            all == texts(lines@),
            size == at_least(chunk_size as int, 1),
            i <= lines@.len(),
            groups(out@) + chunks_from(all, size as int, i as int) == chunks(
                all,
                chunk_size as int,
            ),
        decreases lines@.len() - i,
    {
        let ghost before = out@;
        let end: usize = if lines.len() - i < size {
            lines.len()
        } else {
            i + size
        };
        let part = copy_range(lines, i, end);
        let ghost g = texts(part@);
        out.push(part);
        proof {
            let rest = chunks_from(all, size as int, end as int);
            assert(groups(out@) =~= groups(before).push(g));
            assert(groups(out@) + rest =~= groups(before) + (seq![g] + rest));
        }
        i = end;
    }
    assert(groups(out@) =~= chunks(all, chunk_size as int));
    out
}

// ---------------------------------------------------------------------------
// Messages
// ---------------------------------------------------------------------------

/// A message to be sent: an address and the fields of a form.
#[derive(Debug)]
pub struct MessageRequest {
    pub url: String,
    pub form: Vec<(String, String)>,
}

/// The fields of a form.
pub open spec fn fields(v: Seq<(String, String)>) -> Seq<(Seq<char>, Seq<char>)> {
    Seq::new(v.len(), |i: int| (v[i].0@, v[i].1@))
}

/// The request that sends a message.
pub fn message_request(cfg: &Phase5TelegramConfig, text: &str) -> (r: MessageRequest)
    ensures
        r.url@ == "https://api.telegram.org/bot"@ + trimmed(cfg.bot_token@) + "/sendMessage"@,
        fields(r.form@) == seq![
            ("chat_id"@, trimmed(cfg.chat_id@)),
            ("text"@, text@),
            ("parse_mode"@, "HTML"@),
            ("disable_web_page_preview"@, "true"@),
        ],
{
    let mut url = "https://api.telegram.org/bot".to_string();
    push_text(&mut url, &trim(&cfg.bot_token));
    push_text(&mut url, "/sendMessage");
    let mut form: Vec<(String, String)> = Vec::new();
    form.push(("chat_id".to_string(), trim(&cfg.chat_id)));
    form.push(("text".to_string(), text.to_string()));
    form.push(("parse_mode".to_string(), "HTML".to_string()));
    form.push(("disable_web_page_preview".to_string(), "true".to_string()));
    assert(fields(form@) =~= seq![
        ("chat_id"@, trimmed(cfg.chat_id@)),
        ("text"@, text@),
        ("parse_mode"@, "HTML"@),
        ("disable_web_page_preview"@, "true"@),
    ]);
    MessageRequest { url, form }
}

/// Whether messages can be sent.
#[derive(Clone, Copy, Debug, PartialEq, Eq, Structural)]
pub enum Readiness {
    Off,
    NoCredentials,
    Ready,
}

/// Whether messages can be sent: they are switched on, and there are a bot and
/// a chat.
pub fn readiness(cfg: &Phase5TelegramConfig) -> (r: Readiness)
    ensures
        r == (if !cfg.enabled {
            Readiness::Off
        } else if trimmed(cfg.bot_token@).len() == 0 || trimmed(cfg.chat_id@).len() == 0 {
            Readiness::NoCredentials
        } else {
            Readiness::Ready
        }),
{
    if !cfg.enabled {
        Readiness::Off
    } else if trim(&cfg.bot_token).as_str().is_empty() || trim(&cfg.chat_id).as_str().is_empty() {
        Readiness::NoCredentials
    } else {
        Readiness::Ready
    }
}

/// The lines of a file without white space at either end, those with nothing
/// left out.
pub open spec fn bare_lines(raw: Seq<char>) -> Seq<Seq<char>> {
    lines_of(raw).filter_map(line_reader())
}

/// A line without white space at either end, where anything is left.
pub open spec fn line_reader() -> spec_fn(Seq<char>) -> Option<Seq<char>> {
    |line: Seq<char>|
        if trimmed(line).len() > 0 {
            Some(trimmed(line))
        } else {
            None
        }
}

/// The links that a file lists.
pub fn read_configs(raw: &str) -> (r: Vec<String>)
    ensures
        texts(r@) == bare_lines(raw@),
{
    let all = lines(raw);
    let ghost rows = lines_of(raw@);
    let ghost f = line_reader();
    let mut out: Vec<String> = Vec::new();
    assert(texts(out@) =~= rows.take(0).filter_map(f));
    assert(texts(all@).len() == all@.len());
    for i in 0..all.len()
        invariant
            texts(all@) == rows,
            f == line_reader(),
            texts(out@) == rows.take(i as int).filter_map(f),
    {
        let ghost before = out@;
        proof {
            assert(rows.take(i + 1).drop_last() =~= rows.take(i as int));
            assert(rows.take(i + 1).last() == rows[i as int]);
            assert(rows[i as int] == all@[i as int]@);
        }
        let line = trim(&all[i]);
        if !line.as_str().is_empty() {
            out.push(line);
            assert(texts(out@) =~= texts(before) + seq![line@]);
        }
    }
    assert(rows.take(rows.len() as int) =~= rows);
    out
}

/// The escaped lines of a group.
pub open spec fn escaped_lines(group: Seq<Seq<char>>) -> Seq<Seq<char>> {
    Seq::new(group.len(), |i: int| escaped(group[i]))
}

/// The line that stands before or behind the links, where it is switched on
/// and not empty.
pub open spec fn frame_line(enabled: bool, text: Seq<char>) -> Seq<Seq<char>> {
    if enabled && trimmed(text).len() > 0 {
        seq![escaped(trimmed(text))]
    } else {
        Seq::empty()
    }
}

/// The text of a message with a group of links.
pub open spec fn message_body(cfg: Phase5TelegramConfig, group: Seq<Seq<char>>) -> Seq<char> {
    joined(
        frame_line(cfg.header_enabled, cfg.header_text@) + seq!["<pre>"@] + escaped_lines(group)
            + seq!["</pre>"@] + frame_line(cfg.footer_enabled, cfg.footer_text@),
        "\n"@,
    )
}

fn push_frame(out: &mut Vec<String>, enabled: bool, text: &str)
    ensures
        texts(final(out)@) == texts(old(out)@) + frame_line(enabled, text@),
{
    let ghost before = out@;
    let bare = trim(text);
    if enabled && !bare.as_str().is_empty() {
        out.push(escape_html(&bare));
        assert(texts(out@) =~= texts(before) + frame_line(enabled, text@));
    } else {
        assert(texts(before) + Seq::<Seq<char>>::empty() =~= texts(before));
    }
}

fn push_line(out: &mut Vec<String>, line: &str)
    ensures
        texts(final(out)@) == texts(old(out)@).push(line@),
{
    let ghost before = out@;
    out.push(line.to_string());
    assert(texts(out@) =~= texts(before).push(line@));
}

/// The text of a message with a group of links.
pub fn write_message(cfg: &Phase5TelegramConfig, group: &Vec<String>) -> (r: String)
    ensures
        r@ == message_body(*cfg, texts(group@)),
{
    let mut out: Vec<String> = Vec::new();
    let ghost head = frame_line(cfg.header_enabled, cfg.header_text@);
    let ghost all = escaped_lines(texts(group@));
    push_frame(&mut out, cfg.header_enabled, &cfg.header_text);
    assert(texts(out@) =~= head);
    push_line(&mut out, "<pre>");
    let ghost start = texts(out@);
    assert(start =~= head + seq!["<pre>"@]);
    assert(start + all.take(0) =~= start);
    for i in 0..group.len()
        invariant
            all == escaped_lines(texts(group@)),
            texts(out@) == start + all.take(i as int),
    {
        let ghost before = texts(out@);
        push_line(&mut out, &escape_html(&group[i]));
        assert(texts(group@)[i as int] == group@[i as int]@);
        assert(all.take(i + 1) =~= all.take(i as int).push(all[i as int]));
        assert(before.push(all[i as int]) =~= start + all.take(i + 1));
    }
    assert(all.take(group@.len() as int) =~= all);
    push_line(&mut out, "</pre>");
    push_frame(&mut out, cfg.footer_enabled, &cfg.footer_text);
    assert(texts(out@) =~= head + seq!["<pre>"@] + all + seq!["</pre>"@] + frame_line(
        cfg.footer_enabled,
        cfg.footer_text@,
    ));
    join(&out, "\n")
}

/// A message and how many links it holds.
#[derive(Debug)]
pub struct Message {
    pub body: String,
    pub configs: usize,
}

impl View for Message {
    type V = (Seq<char>, nat);

    open spec fn view(&self) -> (Seq<char>, nat) {
        (self.body@, self.configs as nat)
    }
}

/// What a list of messages holds.
pub open spec fn messages(v: Seq<Message>) -> Seq<(Seq<char>, nat)> {
    Seq::new(v.len(), |i: int| v[i]@)
}

/// The messages for groups of links.
pub open spec fn messages_for(cfg: Phase5TelegramConfig, gs: Seq<Seq<Seq<char>>>) -> Seq<
    (Seq<char>, nat),
> {
    Seq::new(gs.len(), |i: int| (message_body(cfg, gs[i]), gs[i].len()))
}

/// The messages that publish the links of a file, in order.
pub fn plan_messages(cfg: &Phase5TelegramConfig, raw: &str) -> (r: Vec<Message>)
    ensures
        messages(r@) == messages_for(
            *cfg,
            chunks(bare_lines(raw@), cfg.post_config_count as int),
        ),
{
    let configs = read_configs(raw);
    let parts = chunk_lines(&configs, cfg.post_config_count);
    let ghost gs = groups(parts@);
    let ghost all = messages_for(*cfg, gs);
    let mut out: Vec<Message> = Vec::new();
    for i in 0..parts.len()
        invariant
            gs == groups(parts@),
            all == messages_for(*cfg, gs),
            messages(out@) == all.take(i as int),
    {
        let ghost before = out@;
        assert(gs[i as int] == texts(parts@[i as int]@));
        let body = write_message(cfg, &parts[i]);
        out.push(Message { body, configs: parts[i].len() });
        assert(messages(out@) =~= messages(before).push(all[i as int]));
        assert(all.take(i + 1) =~= all.take(i as int).push(all[i as int]));
    }
    assert(all.take(parts@.len() as int) =~= all);
    out
}

// ---------------------------------------------------------------------------
// Reports
// ---------------------------------------------------------------------------

/// The message that the file with the links to send is not there.
pub fn no_file_event(path: &str) -> (r: AppEvent)
    ensures
        says(
            r,
            LogLevel::Warning,
            "⚠️ PHASE 5 skipped: "@ + path@ + " not found."@,
        ),
{
    let mut text = "⚠️ PHASE 5 skipped: ".to_string();
    push_text(&mut text, path);
    push_text(&mut text, " not found.");
    log_worker(LogLevel::Warning, text)
}

/// The message that sending begins.
pub fn sending_event(configs: usize, posts: usize, cfg: &Phase5TelegramConfig) -> (r: AppEvent)
    ensures
        says(
            r,
            LogLevel::Info,
            "📤 PHASE 5 START | source=tested/new_only/mixed.txt | configs="@
                + decimal(configs as nat) + " | posts="@ + decimal(posts as nat) + " | per_post="@
                + decimal(at_least(cfg.post_config_count as int, 1) as nat),
        ),
{
    let per_post: usize = if cfg.post_config_count < 1 {
        1
    } else {
        cfg.post_config_count
    };
    let mut text = "📤 PHASE 5 START | source=tested/new_only/mixed.txt | configs=".to_string();
    push_text(&mut text, &decimal_text(configs as u128));
    push_text(&mut text, " | posts=");
    push_text(&mut text, &decimal_text(posts as u128));
    push_text(&mut text, " | per_post=");
    push_text(&mut text, &decimal_text(per_post as u128));
    log_worker(LogLevel::Info, text)
}

/// The message that a message was sent: the `done`-th of `posts`, with so many
/// links.
pub fn posted_event(done: usize, posts: usize, configs: usize) -> (r: AppEvent)
    ensures
        says(
            r,
            LogLevel::Success,
            "✅ PHASE 5 POST "@ + decimal(done as nat) + "/"@ + decimal(posts as nat)
                + " sent | configs_in_post="@ + decimal(configs as nat) + " | remaining_posts="@
                + decimal(at_least(posts - done, 0) as nat),
        ),
{
    let mut text = "✅ PHASE 5 POST ".to_string();
    push_text(&mut text, &decimal_text(done as u128));
    push_text(&mut text, "/");
    push_text(&mut text, &decimal_text(posts as u128));
    push_text(&mut text, " sent | configs_in_post=");
    push_text(&mut text, &decimal_text(configs as u128));
    push_text(&mut text, " | remaining_posts=");
    push_text(&mut text, &decimal_text(posts.saturating_sub(done) as u128));
    log_worker(LogLevel::Success, text)
}

/// The message that sending is over.
pub fn sent_event(configs: usize) -> (r: AppEvent)
    ensures
        says(
            r,
            LogLevel::Success,
            "🏁 PHASE 5 COMPLETE | sent_configs="@ + decimal(configs as nat),
        ),
{
    let mut text = "🏁 PHASE 5 COMPLETE | sent_configs=".to_string();
    push_text(&mut text, &decimal_text(configs as u128));
    log_worker(LogLevel::Success, text)
}

// ---------------------------------------------------------------------------
// Laws
// ---------------------------------------------------------------------------

/// An escaped text opens and closes no markup.
pub proof fn escaped_text_holds_no_markup(s: Seq<char>)
    ensures
        !escaped(s).contains('<'),
        !escaped(s).contains('>'),
{
    reveal_strlit("&");
    reveal_strlit("<");
    reveal_strlit(">");
    reveal_strlit("&amp;");
    reveal_strlit("&lt;");
    reveal_strlit("&gt;");
    assert("&"@ =~= seq!['&']);
    assert("<"@ =~= seq!['<']);
    assert(">"@ =~= seq!['>']);
    let a = replaced(s, "&"@, "&amp;"@);
    let b = replaced(a, "<"@, "&lt;"@);
    let c = replaced(b, ">"@, "&gt;"@);
    if c.contains('>') {
        replaced_character_is_gone(b, '>', "&gt;"@, '>');
        let k = "&gt;"@.index_of('>');
        assert("&gt;"@[k] == '>');
    }
    if c.contains('<') {
        replaced_character_is_gone(b, '>', "&gt;"@, '<');
        if "&gt;"@.contains('<') {
            let k = "&gt;"@.index_of('<');
            assert("&gt;"@[k] == '<');
        }
        replaced_character_is_gone(a, '<', "&lt;"@, '<');
        let k = "&lt;"@.index_of('<');
        assert("&lt;"@[k] == '<');
    }
}

/// The groups one behind the other.
pub open spec fn flat(gs: Seq<Seq<Seq<char>>>) -> Seq<Seq<char>>
    decreases gs.len(),
{
    if gs.len() == 0 {
        Seq::empty()
    } else {
        gs[0] + flat(gs.skip(1))
    }
}

proof fn lemma_chunks(s: Seq<Seq<char>>, size: int, i: int)
    requires
        0 <= i <= s.len(),
        size >= 1,
    ensures
        flat(chunks_from(s, size, i)) == s.skip(i),
        forall|k: int|
            0 <= k < chunks_from(s, size, i).len() ==> 1 <= (#[trigger] chunks_from(
                s,
                size,
                i,
            )[k]).len() <= size,
        forall|k: int|
            0 <= k < chunks_from(s, size, i).len() - 1 ==> (#[trigger] chunks_from(
                s,
                size,
                i,
            )[k]).len() == size,
    decreases s.len() - i,
{
    let all = chunks_from(s, size, i);
    if i < s.len() {
        let end = if s.len() - i < size {
            s.len() as int
        } else {
            i + size
        };
        lemma_chunks(s, size, end);
        let rest = chunks_from(s, size, end);
        assert(all.skip(1) =~= rest);
        assert(s.subrange(i, end) + s.skip(end) =~= s.skip(i));
        assert forall|k: int| 0 <= k < all.len() implies 1 <= (#[trigger] all[k]).len() <= size by {
            if k > 0 {
                assert(all[k] == rest[k - 1]);
            }
        }
        assert forall|k: int| 0 <= k < all.len() - 1 implies (#[trigger] all[k]).len() == size by {
            if k > 0 {
                assert(all[k] == rest[k - 1]);
            } else if end == s.len() {
                assert(rest.len() == 0);
            }
        }
    } else {
        assert(s.skip(i) =~= Seq::<Seq<char>>::empty());
    }
}

/// Groups hold every line once and in order; none is empty or too large, and
/// only the last one may be smaller than the others.
pub proof fn groups_hold_every_line(s: Seq<Seq<char>>, size: int)
    ensures
        flat(chunks(s, size)) == s,
        forall|k: int|
            0 <= k < chunks(s, size).len() ==> 1 <= (#[trigger] chunks(s, size)[k]).len()
                <= at_least(size, 1),
        forall|k: int|
            0 <= k < chunks(s, size).len() - 1 ==> (#[trigger] chunks(s, size)[k]).len()
                == at_least(size, 1),
{
    lemma_chunks(s, at_least(size, 1), 0);
    assert(s.skip(0) =~= s);
}

/// A text without the characters of markup is sent as it is.
pub proof fn plain_text_is_sent_as_it_is(s: Seq<char>)
    requires
        !s.contains('&'),
        !s.contains('<'),
        !s.contains('>'),
    ensures
        escaped(s) == s,
{
    reveal_strlit("&");
    reveal_strlit("<");
    reveal_strlit(">");
    assert("&"@ =~= seq!['&']);
    assert("<"@ =~= seq!['<']);
    assert(">"@ =~= seq!['>']);
    replacing_nothing(s, '&', "&amp;"@);
    replacing_nothing(s, '<', "&lt;"@);
    replacing_nothing(s, '>', "&gt;"@);
}

/// A message holds its links, escaped, a line each, as a block, with the header
/// before it and the footer behind it where they are switched on and say anything.
pub proof fn messages_frame_their_links(cfg: Phase5TelegramConfig, group: Seq<Seq<char>>, i: int)
    requires
        0 <= i < group.len(),
    ensures
        ({
            let head = cfg.header_enabled && trimmed(cfg.header_text@).len() > 0;
            let foot = cfg.footer_enabled && trimmed(cfg.footer_text@).len() > 0;
            let skip: int = if head {
                1
            } else {
                0
            };
            exists|lines: Seq<Seq<char>>| #[trigger]
                joined(lines, "\n"@) == message_body(cfg, group) && lines.len() == group.len() + 2
                    + skip + (if foot {
                    1int
                } else {
                    0int
                }) && (head ==> lines[0] == escaped(trimmed(cfg.header_text@))) && lines[skip]
                    == "<pre>"@ && lines[skip + 1 + i] == escaped(group[i]) && lines[skip + 1
                    + group.len()] == "</pre>"@ && (foot ==> lines[skip + 2 + group.len()]
                    == escaped(trimmed(cfg.footer_text@)))
        }),
{
    let lines = frame_line(cfg.header_enabled, cfg.header_text@) + seq!["<pre>"@] + escaped_lines(
        group,
    ) + seq!["</pre>"@] + frame_line(cfg.footer_enabled, cfg.footer_text@);
    assert(joined(lines, "\n"@) == message_body(cfg, group));
}

} // verus!
