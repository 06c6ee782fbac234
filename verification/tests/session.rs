//! The session actor: buffering, flushing and deadlines.

use ai_agent_bridge::session::{
    handle_event, Action, Actor, Cmd, Input, StreamState, FLUSH_INTERVAL, FLUSH_THRESHOLD_BYTES,
    THINKING_INTERVAL,
};
use ai_agent_bridge::types::{Event, ReplyCtx};

#[test]
fn append_partial_sets_buffering_since() {
    let mut s = StreamState::new(false);
    assert!(s.buffering_since.is_none());
    s.append_partial("hello", 7);
    assert!(s.buffering_since.is_some());
    assert_eq!(s.buf, "hello");
}

#[test]
fn append_partial_empty_text_is_noop() {
    let mut s = StreamState::new(false);
    s.append_partial("", 7);
    assert!(s.buffering_since.is_none());
    assert!(s.buf.is_empty());
}

#[test]
fn should_flush_false_when_under_threshold() {
    let mut s = StreamState::new(false);
    s.append_partial("short", 0);
    assert!(!s.should_flush());
}

#[test]
fn should_flush_true_when_over_threshold() {
    let mut s = StreamState::new(false);
    s.append_partial(&"x".repeat(FLUSH_THRESHOLD_BYTES + 1), 0);
    assert!(s.should_flush());
}

#[test]
fn should_flush_false_in_batch_mode() {
    let mut s = StreamState::new(true);
    s.append_partial(&"x".repeat(FLUSH_THRESHOLD_BYTES + 100), 0);
    assert!(!s.should_flush());
}

#[test]
fn discard_buffer_clears_all() {
    let mut s = StreamState::new(false);
    s.append_partial("data", 0);
    assert!(!s.buf.is_empty());
    assert!(s.buffering_since.is_some());
    s.discard_buffer();
    assert!(s.buf.is_empty());
    assert!(s.buffering_since.is_none());
}

#[test]
fn flush_sends_text_and_clears_buffer() {
    let mut s = StreamState::new(false);
    s.append_partial("hello world", 0);
    let replies = s.flush();
    assert!(s.buf.is_empty());
    assert!(s.buffering_since.is_none());
    assert_eq!(replies, vec![Action::Reply("hello world".into())]);
}

#[test]
fn flush_skips_whitespace_only() {
    let mut s = StreamState::new(false);
    s.append_partial("   \n  ", 0);
    assert!(s.flush().is_empty());
    assert!(s.buf.is_empty());
}

#[test]
fn mark_processing_idempotent() {
    let mut s = StreamState::new(true);
    assert!(!s.processing);
    s.mark_processing(5);
    assert!(s.processing);
    let first_ts = s.last_thinking;
    s.mark_processing(9);
    assert_eq!(s.last_thinking, first_ts);
}

#[test]
fn clear_processing_resets_state() {
    let mut s = StreamState::new(true);
    s.mark_processing(5);
    s.thinking_count = 5;
    s.clear_processing();
    assert!(!s.processing);
    assert!(s.last_thinking.is_none());
    assert_eq!(s.thinking_count, 0);
}

#[test]
fn next_deadline_none_when_idle_streaming() {
    let s = StreamState::new(false);
    assert!(s.next_deadline(0).is_none());
}

#[test]
fn next_deadline_none_when_idle_batch() {
    let s = StreamState::new(true);
    assert!(s.next_deadline(0).is_none());
}

#[test]
fn next_deadline_returns_thinking_interval_in_batch_processing() {
    let mut s = StreamState::new(true);
    s.mark_processing(100);
    let deadline = s.next_deadline(100);
    assert!(deadline.is_some());
    assert_eq!(deadline, Some(100 + THINKING_INTERVAL));
}

#[test]
fn next_deadline_returns_flush_interval_when_buffered_streaming() {
    let mut s = StreamState::new(false);
    s.append_partial("data", 100);
    let deadline = s.next_deadline(100);
    assert!(deadline.is_some());
    assert_eq!(deadline, Some(100 + FLUSH_INTERVAL));
}

#[test]
fn waiting_for_response_prevents_idle_deadline_from_being_none() {
    let mut s = StreamState::new(false);
    assert!(s.next_deadline(50).is_none());
    s.waiting_for_response = true;
    s.last_thinking = Some(50);
    assert!(s.next_deadline(50).is_some());
}

#[test]
fn waiting_for_response_batch_mode_returns_deadline() {
    let mut s = StreamState::new(true);
    assert!(s.next_deadline(50).is_none());
    s.waiting_for_response = true;
    s.last_thinking = Some(50);
    assert!(s.next_deadline(50).is_some());
}

#[test]
fn waiting_for_response_default_false() {
    let s = StreamState::new(false);
    assert!(!s.waiting_for_response);
}

fn partial(text: &str) -> Event {
    Event::AssistantText { text: text.into(), partial: true }
}

#[test]
fn batch_turn_is_sent_as_one_message() {
    let mut s = StreamState::new(true);
    let mut sent = Vec::new();
    for part in ["echo", ": ", "hi"] {
        sent.extend(handle_event(&mut s, partial(part), 0));
    }
    assert!(sent.is_empty());
    sent.extend(handle_event(
        &mut s,
        Event::AssistantText { text: "echo: hi".into(), partial: false },
        0,
    ));
    sent.extend(handle_event(&mut s, Event::Done { session_id: "s".into() }, 0));
    let replies: Vec<&Action> = sent.iter().filter(|a| matches!(a, Action::Reply(_))).collect();
    assert_eq!(replies, vec![&Action::Reply("echo: hi".into())]);
    assert!(sent.contains(&Action::RecordDone("s".into())));
}

#[test]
fn streamed_text_is_flushed_on_time() {
    let mut actor = Actor::new(false, ReplyCtx::default(), 1_800_000, 0);
    assert!(actor.step(Input::AgentEvent(partial("hel")), 10).is_empty());
    assert_eq!(actor.next_deadline(10), Some(10 + FLUSH_INTERVAL));
    assert_eq!(actor.step(Input::Timer, 10 + FLUSH_INTERVAL), vec![Action::Reply("hel".into())]);
}

#[test]
fn errors_are_reported_and_forget_the_session() {
    let mut s = StreamState::new(true);
    let sent = handle_event(&mut s, Event::Error("boom".into()), 0);
    assert_eq!(sent, vec![Action::Reply("⚠️ boom".into()), Action::ClearActive]);
}

fn send(prompt: &str, thread: &str) -> Input {
    Input::Command(Cmd::Send {
        prompt: prompt.into(),
        attachments: vec![],
        reply_ctx: ReplyCtx { thread: Some(thread.into()), ..ReplyCtx::default() },
    })
}

#[test]
fn every_turn_moves_the_reply_context() {
    let mut actor = Actor::new(true, ReplyCtx::default(), 1_000, 0);
    let actions = actor.step(send("one", "t1"), 0);
    assert!(actions.iter().any(|a| matches!(a, Action::Prompt { prompt, .. } if prompt == "one")));
    assert_eq!(actor.reply_ctx.thread.as_deref(), Some("t1"));
    actor.step(send("two", "t2"), 1);
    assert_eq!(actor.reply_ctx.thread.as_deref(), Some("t2"));
}

#[test]
fn idle_session_stops_but_a_working_one_does_not() {
    let mut idle = Actor::new(false, ReplyCtx::default(), 200, 0);
    assert!(idle.step(Input::Timer, 250).contains(&Action::Stop));

    let mut working = Actor::new(false, ReplyCtx::default(), 1_000, 0);
    working.step(send("slow request", "t"), 0);
    working.step(Input::PromptSent, 1);
    assert!(!working.step(Input::Timer, 1_400).contains(&Action::Stop));
    let sent = working.step(
        Input::AgentEvent(Event::AssistantText { text: "echo: slow request".into(), partial: false }),
        1_500,
    );
    assert!(sent.contains(&Action::Reply("echo: slow request".into())));
}

#[test]
fn closing_stops_the_actor() {
    let mut actor = Actor::new(true, ReplyCtx::default(), 1_000, 0);
    assert!(actor.step(Input::Command(Cmd::Close), 5).contains(&Action::Stop));
    assert!(actor.step(Input::InboxClosed, 5).contains(&Action::Stop));
    let answer = Input::Command(Cmd::Permission { id: "r".into(), allow: true });
    assert_eq!(
        actor.step(answer, 5),
        vec![Action::Answer { id: "r".into(), allow: true }]
    );
}

#[test]
fn batch_turn_without_a_complete_text_is_one_message() {
    let mut s = StreamState::new(true);
    let mut sent = Vec::new();
    for part in ["one ", "two ", "three"] {
        sent.extend(handle_event(&mut s, partial(part), 0));
    }
    sent.extend(handle_event(&mut s, Event::Done { session_id: "s".into() }, 1));
    let replies: Vec<&Action> = sent.iter().filter(|a| matches!(a, Action::Reply(_))).collect();
    assert_eq!(replies, vec![&Action::Reply("one two three".into())]);
}

#[test]
fn typing_is_shown_at_intervals() {
    let mut actor = Actor::new(true, ReplyCtx::default(), 10_000_000, 0);
    actor.step(send("slow", "t"), 0);
    actor.step(Input::PromptSent, 0);
    assert_eq!(actor.next_deadline(0), Some(THINKING_INTERVAL));
    assert_eq!(actor.step(Input::Timer, THINKING_INTERVAL), vec![Action::ShowTyping]);
    assert_eq!(actor.next_deadline(THINKING_INTERVAL), Some(2 * THINKING_INTERVAL));
}

#[test]
fn typing_goes_on_beyond_the_idle_timeout() {
    let mut actor = Actor::new(true, ReplyCtx::default(), 20_000, 0);
    actor.step(send("slow", "t"), 0);
    actor.step(Input::PromptSent, 0);
    let mut now = 0;
    for _ in 0..5 {
        let next = actor.next_deadline(now).unwrap();
        assert_eq!(next, now + THINKING_INTERVAL);
        now = next;
        assert_eq!(actor.step(Input::Timer, now), vec![Action::ShowTyping]);
    }
}

#[test]
fn working_session_has_no_idle_deadline() {
    let mut actor = Actor::new(false, ReplyCtx::default(), 20_000, 0);
    assert_eq!(actor.next_deadline(5), Some(20_000));
    let start = Event::ToolStart { id: "t1".into(), name: "Bash".into() };
    actor.step(Input::AgentEvent(start), 10);
    assert_eq!(actor.next_deadline(30_000), None);
    actor.step(Input::AgentEvent(Event::Done { session_id: "s".into() }), 40_000);
    assert_eq!(actor.next_deadline(40_000), Some(60_000));
    assert_eq!(actor.step(Input::Timer, 60_000), vec![Action::Stop]);
}
