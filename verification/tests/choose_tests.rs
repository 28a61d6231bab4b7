use chatcmd::dispatch::dispatch;
use chatcmd::handlers::{choose_among, choose_at};
use chatcmd::parser::ChatEvent;
use chatcmd::store::Store;

fn event(sender: &str, dest: &str, line: &str) -> ChatEvent {
    ChatEvent {
        sender_identity: sender.to_string(),
        destination: dest.to_string(),
        verb_line: line.to_string(),
    }
}

#[test]
fn choose_from_two() {
    let mut store = Store::new();
    let ev = event("test", "#test", "@choose this or that");
    let out = dispatch(&ev, "bot", &mut store).unwrap();
    assert_eq!(out.target, "#test");
    assert!(["test: this", "test: that"].contains(&out.text.as_str()));
}

#[test]
fn choose_from_three() {
    let mut store = Store::new();
    let ev = event("test", "#test", "@choose this or that or the other thing");
    let out = dispatch(&ev, "bot", &mut store).unwrap();
    assert_eq!(out.target, "#test");
    assert!(
        ["test: this", "test: that", "test: the other thing"].contains(&out.text.as_str())
    );
}

#[test]
fn choose_two_always_valid() {
    for _ in 0..200 {
        let reply = choose_among("this or that", "alice");
        assert!(["alice: this", "alice: that"].contains(&reply.as_str()));
    }
}

#[test]
fn choose_three_fixed_set() {
    for _ in 0..200 {
        let reply = choose_among("this or that or the other thing", "alice");
        assert!(
            ["alice: this", "alice: that", "alice: the other thing"]
                .contains(&reply.as_str())
        );
    }
}

#[test]
fn choose_single_candidate() {
    assert_eq!(choose_among("lonely", "alice"), "alice: lonely");
}

#[test]
fn choose_empty_tail_is_one_empty_candidate() {
    assert_eq!(choose_among("", "alice"), "alice: ");
}

#[test]
fn choose_at_picks_by_position() {
    assert_eq!(choose_at("this or that", "alice", 0), "alice: this");
    assert_eq!(choose_at("this or that", "alice", 1), "alice: that");
    assert_eq!(choose_at("a or b or c", "bob", 2), "bob: c");
}

#[test]
fn choose_every_position_reachable() {
    let mut counts = [0usize; 3];
    for _ in 0..3000 {
        let reply = choose_among("a or b or c", "u");
        match reply.as_str() {
            "u: a" => counts[0] += 1,
            "u: b" => counts[1] += 1,
            "u: c" => counts[2] += 1,
            other => panic!("unexpected reply {}", other),
        }
    }
    for c in counts {
        assert!(c > 400, "a candidate was drawn far too rarely: {:?}", counts);
    }
}
