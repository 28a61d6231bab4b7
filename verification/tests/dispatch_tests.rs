use chatcmd::dispatch::dispatch;
use chatcmd::handlers::query_profile;
use chatcmd::parser::{parse_command, ChatEvent};
use chatcmd::store::Store;

fn event(sender: &str, dest: &str, line: &str) -> ChatEvent {
    ChatEvent {
        sender_identity: sender.to_string(),
        destination: dest.to_string(),
        verb_line: line.to_string(),
    }
}

#[test]
fn parse_splits_verb_and_tail() {
    let ev = event("bob", "#chan", "@iam a hacker  ");
    let pc = parse_command(&ev, "bot").unwrap();
    assert_eq!(pc.verb, "@iam");
    assert_eq!(pc.argument_tail, "a hacker");
    assert_eq!(pc.invoker, "bob");
    assert_eq!(pc.reply_target, "#chan");
}

#[test]
fn parse_of_a_plain_line_is_no_command() {
    let ev = event("bob", "#chan", "hello there");
    assert!(parse_command(&ev, "bot").is_none());
}

#[test]
fn reply_goes_to_invoker_on_a_direct_message() {
    let mut store = Store::new();
    let ev = event("bob", "mybot", "@whoami");
    let out = dispatch(&ev, "mybot", &mut store).unwrap();
    assert_eq!(out.target, "bob");
    assert_eq!(out.text, "bob: I don't know who you are.");
}

#[test]
fn iam_then_whois_then_whoami() {
    let mut store = Store::new();
    let out = dispatch(&event("bob", "#chan", "@iam a hacker"), "bot", &mut store).unwrap();
    assert_eq!(out.text, "bob: Got it!");
    let out = dispatch(&event("alice", "#chan", "@whois bob"), "bot", &mut store).unwrap();
    assert_eq!(out.text, "alice: bob is a hacker");
    let out = dispatch(&event("bob", "#chan", "@whoami"), "bot", &mut store).unwrap();
    assert_eq!(out.text, "bob: you are a hacker");
}

#[test]
fn whois_is_case_insensitive_and_echoes_the_asked_name() {
    let mut store = Store::new();
    dispatch(&event("Bob", "#chan", "@iam a hacker"), "bot", &mut store).unwrap();
    let out = dispatch(&event("alice", "#chan", "@whois BOB"), "bot", &mut store).unwrap();
    assert_eq!(out.text, "alice: BOB is a hacker");
}

#[test]
fn whois_ignores_tokens_after_the_target() {
    let mut store = Store::new();
    dispatch(&event("bob", "#chan", "@iam a hacker"), "bot", &mut store).unwrap();
    let out = dispatch(&event("alice", "#chan", "@whois bob and others"), "bot", &mut store)
        .unwrap();
    assert_eq!(out.text, "alice: bob is a hacker");
}

#[test]
fn whois_of_a_stranger() {
    let mut store = Store::new();
    let out = dispatch(&event("alice", "#chan", "@whois carol"), "bot", &mut store).unwrap();
    assert_eq!(out.text, "alice: I don't know who carol is.");
}

#[test]
fn whois_without_a_name_asks_for_one() {
    let mut store = Store::new();
    let out = dispatch(&event("alice", "#chan", "@whois"), "bot", &mut store).unwrap();
    assert_eq!(out.text, "alice: Who is who? I need a name!");
    let out = dispatch(&event("alice", "#chan", "@whois  "), "bot", &mut store).unwrap();
    assert_eq!(out.text, "alice: Who is who? I need a name!");
}

#[test]
fn unknown_verbs_and_plain_lines_are_ignored() {
    let mut store = Store::new();
    dispatch(&event("bob", "#chan", "@iam a hacker"), "bot", &mut store).unwrap();
    assert!(dispatch(&event("bob", "#chan", "just chatting"), "bot", &mut store).is_none());
    assert!(dispatch(&event("bob", "#chan", "@frobnicate x"), "bot", &mut store).is_none());
    assert!(dispatch(&event("bob", "#chan", ""), "bot", &mut store).is_none());
    let out = dispatch(&event("bob", "#chan", "@whoami"), "bot", &mut store).unwrap();
    assert_eq!(out.text, "bob: you are a hacker");
}

#[test]
fn empty_invoker_is_tolerated() {
    let mut store = Store::new();
    let out = dispatch(&event("", "#chan", "@whoami"), "bot", &mut store).unwrap();
    assert_eq!(out.text, ": I don't know who you are.");
}

#[test]
fn query_profile_self_form_without_record() {
    let store = Store::new();
    assert_eq!(query_profile("", "carol", false, &store), "carol: I don't know who you are.");
}
