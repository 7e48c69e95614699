use chat_relay::dispatch::{dispatch, dispatch_all, Delivery};
use chat_relay::event::{Event, EventKind, EventQueue, QUEUE_CAPACITY};
use chat_relay::registry::Registry;
use chat_relay::session::{negotiate, Session};
use chat_relay::wire::{normalize_name, strip_line_end};

fn text(d: &Delivery) -> (String, String) {
    (
        String::from_utf8(d.to.clone()).unwrap(),
        String::from_utf8(d.text.clone()).unwrap(),
    )
}

fn run(reg: &mut Registry<u32>, e: &Event) -> Vec<(String, String)> {
    dispatch(reg, e).iter().map(text).collect()
}

fn pair(to: &str, t: &str) -> (String, String) {
    (to.to_string(), t.to_string())
}

fn join(reg: &mut Registry<u32>, line: &str, sink: u32) -> (Session, Event) {
    match negotiate(reg, line.as_bytes(), sink) {
        Ok(pair) => pair,
        Err(_) => panic!("name refused: {}", line),
    }
}

#[test]
fn alice_joins_an_empty_room() {
    let mut reg: Registry<u32> = Registry::new();
    let (s, enter) = join(&mut reg, "alice\n", 1);
    assert_eq!(s.name(), &b"alice".to_vec());
    assert_eq!(enter.kind, EventKind::Enter);
    assert_eq!(
        run(&mut reg, &enter),
        vec![
            pair("alice", "server\nWelcome alice!\n"),
            pair("alice", "server\nno users in chat\n"),
        ]
    );
}

#[test]
fn bob_joins_after_alice() {
    let mut reg: Registry<u32> = Registry::new();
    let (_a, enter_a) = join(&mut reg, "alice\n", 1);
    run(&mut reg, &enter_a);
    let (_b, enter_b) = join(&mut reg, "bob\n", 2);
    assert_eq!(
        run(&mut reg, &enter_b),
        vec![
            pair("alice", "server\nbob has entered\n"),
            pair("bob", "server\nWelcome bob!\n"),
            pair("bob", "server\nusers in chat: alice\n"),
        ]
    );
}

#[test]
fn chat_line_goes_to_everyone_else() {
    let mut reg: Registry<u32> = Registry::new();
    let (a, enter_a) = join(&mut reg, "alice\n", 1);
    run(&mut reg, &enter_a);
    let (_b, enter_b) = join(&mut reg, "bob\n", 2);
    run(&mut reg, &enter_b);
    let relay = a.on_line(b"hello\n").unwrap();
    assert_eq!(relay.payload, b"hello".to_vec());
    assert_eq!(run(&mut reg, &relay), vec![pair("bob", "alice\nhello\n")]);
}

#[test]
fn leaving_frees_the_name() {
    let mut reg: Registry<u32> = Registry::new();
    let (_a, enter_a) = join(&mut reg, "alice\n", 1);
    run(&mut reg, &enter_a);
    let (mut b, enter_b) = join(&mut reg, "bob\n", 2);
    run(&mut reg, &enter_b);
    let exit = b.on_close().unwrap();
    assert_eq!(run(&mut reg, &exit), vec![pair("alice", "server\nbob has left\n")]);
    assert!(!reg.contains(b"bob"));
    assert_eq!(reg.len(), 1);
    let (again, _) = join(&mut reg, "bob\n", 3);
    assert_eq!(again.name(), &b"bob".to_vec());
    assert_eq!(reg.get_sink(b"bob"), Some(&3));
}

#[test]
fn server_name_is_refused() {
    let mut reg: Registry<u32> = Registry::new();
    let (_a, enter_a) = join(&mut reg, "alice\n", 1);
    run(&mut reg, &enter_a);
    match negotiate(&mut reg, b"server\n", 9) {
        Ok(_) => panic!("the server's name was accepted"),
        Err(refusal) => {
            assert_eq!(refusal.sink, 9);
            assert_eq!(refusal.reply, b"server\nserver is already taken\n".to_vec());
        }
    }
    assert_eq!(reg.len(), 1);
    assert!(!reg.contains(b"server"));
}

#[test]
fn taken_name_is_refused() {
    let mut reg: Registry<u32> = Registry::new();
    join(&mut reg, "alice\n", 1);
    match negotiate(&mut reg, b"alice\r\n", 2) {
        Ok(_) => panic!("a taken name was accepted"),
        Err(refusal) => {
            assert_eq!(refusal.sink, 2);
            assert_eq!(refusal.reply, b"server\nalice is already taken\n".to_vec());
        }
    }
    assert_eq!(reg.get_sink(b"alice"), Some(&1));
}

#[test]
fn empty_name_is_refused() {
    let mut reg: Registry<u32> = Registry::new();
    assert!(negotiate(&mut reg, b"   \n", 1).is_err());
    assert!(negotiate(&mut reg, b"", 2).is_err());
    assert_eq!(reg.len(), 0);
}

#[test]
fn exit_of_absent_name_changes_nothing() {
    let mut reg: Registry<u32> = Registry::new();
    let (_a, enter_a) = join(&mut reg, "alice\n", 1);
    run(&mut reg, &enter_a);
    let (mut b, enter_b) = join(&mut reg, "bob\n", 2);
    run(&mut reg, &enter_b);
    let exit = b.on_close().unwrap();
    run(&mut reg, &exit);
    assert_eq!(run(&mut reg, &exit), Vec::<(String, String)>::new());
    assert_eq!(run(&mut reg, &Event::exit(b"carol")), Vec::<(String, String)>::new());
    assert_eq!(reg.len(), 1);
    assert_eq!(reg.get_sink(b"alice"), Some(&1));
}

#[test]
fn name_is_cut_and_trimmed_before_lookup() {
    let mut reg: Registry<u32> = Registry::new();
    let (a, enter) = join(&mut reg, "alice\n", 1);
    assert_eq!(enter.sender, b"alice".to_vec());
    let mut long = b"alice".to_vec();
    long.extend_from_slice(&[b' '; 27]);
    long.extend_from_slice(b"trailing bytes\n");
    assert_eq!(normalize_name(&long), b"alice".to_vec());
    match negotiate(&mut reg, &long, 2) {
        Ok(_) => panic!("the same name was accepted twice"),
        Err(refusal) => {
            assert_eq!(refusal.reply, b"server\nalice is already taken\n".to_vec())
        }
    }
    assert_eq!(a.name(), &b"alice".to_vec());
}

#[test]
fn long_name_keeps_thirty_two_bytes() {
    let raw = b"abcdefghijklmnopqrstuvwxyz0123456789\n".to_vec();
    assert_eq!(normalize_name(&raw), b"abcdefghijklmnopqrstuvwxyz012345".to_vec());
    let mut reg: Registry<u32> = Registry::new();
    let (s, e) = join(&mut reg, "abcdefghijklmnopqrstuvwxyz0123456789\n", 1);
    assert_eq!(s.name().len(), 32);
    assert_eq!(e.sender, b"abcdefghijklmnopqrstuvwxyz012345".to_vec());
}

#[test]
fn unicode_whitespace_is_trimmed() {
    assert_eq!(normalize_name("bob\u{a0}\t \n".as_bytes()), b"bob".to_vec());
    assert_eq!(normalize_name("bob\u{3000}\u{2003}".as_bytes()), b"bob".to_vec());
    assert_eq!(normalize_name("bob\u{85}".as_bytes()), b"bob".to_vec());
    assert_eq!(normalize_name("b\u{a0}ob".as_bytes()), "b\u{a0}ob".as_bytes().to_vec());
    assert_eq!(normalize_name("bob\u{e9}".as_bytes()), "bob\u{e9}".as_bytes().to_vec());
}

#[test]
fn line_terminators_are_stripped() {
    assert_eq!(strip_line_end(b"hi\r\n"), b"hi".to_vec());
    assert_eq!(strip_line_end(b"hi\n"), b"hi".to_vec());
    assert_eq!(strip_line_end(b"hi"), b"hi".to_vec());
    assert_eq!(strip_line_end(b"hi\r"), b"hi\r".to_vec());
    assert_eq!(strip_line_end(b"\n"), Vec::<u8>::new());
}

#[test]
fn users_list_is_joined_in_registration_order() {
    let mut reg: Registry<u32> = Registry::new();
    for (i, n) in ["alice\n", "bob\n", "carol\n"].iter().enumerate() {
        let (_, e) = join(&mut reg, n, i as u32);
        run(&mut reg, &e);
    }
    let (_, e) = join(&mut reg, "dave\n", 9);
    let out = run(&mut reg, &e);
    assert_eq!(out.len(), 5);
    assert_eq!(out[3], pair("dave", "server\nWelcome dave!\n"));
    assert_eq!(out[4], pair("dave", "server\nusers in chat: alice, bob, carol\n"));
}

#[test]
fn exit_removes_only_the_sender() {
    let mut reg: Registry<u32> = Registry::new();
    for (i, n) in ["alice\n", "bob\n", "carol\n"].iter().enumerate() {
        let (_, e) = join(&mut reg, n, i as u32 + 1);
        run(&mut reg, &e);
    }
    let out = run(&mut reg, &Event::exit(b"bob"));
    assert_eq!(
        out,
        vec![pair("alice", "server\nbob has left\n"), pair("carol", "server\nbob has left\n")]
    );
    assert_eq!(reg.len(), 2);
    assert_eq!(reg.name_at(0), &b"alice".to_vec());
    assert_eq!(reg.name_at(1), &b"carol".to_vec());
    assert_eq!(reg.get_sink(b"carol"), Some(&3));
    assert_eq!(reg.get_sink(b"bob"), None);
}

#[test]
fn enter_of_absent_name_writes_nothing() {
    let mut reg: Registry<u32> = Registry::new();
    join(&mut reg, "alice\n", 1);
    assert_eq!(run(&mut reg, &Event::enter(b"bob")), Vec::<(String, String)>::new());
}

#[test]
fn session_ends_once() {
    let mut reg: Registry<u32> = Registry::new();
    let (mut s, _) = join(&mut reg, "alice\n", 1);
    assert!(s.open());
    let first = s.on_close().unwrap();
    assert_eq!(first.kind, EventKind::Exit);
    assert_eq!(first.sender, b"alice".to_vec());
    assert!(first.payload.is_empty());
    assert!(s.on_close().is_none());
    assert!(s.on_line(b"late\n").is_none());
}

#[test]
fn queue_is_first_in_first_out() {
    let mut q = EventQueue::new(3);
    assert!(q.is_empty());
    assert!(q.push(Event::enter(b"a")).is_ok());
    assert!(q.push(Event::relay(b"a", b"x".to_vec())).is_ok());
    assert!(q.push(Event::exit(b"a")).is_ok());
    assert!(q.is_full());
    let back = q.push(Event::enter(b"b")).unwrap_err();
    assert_eq!(back.sender, b"b".to_vec());
    assert_eq!(q.len(), 3);
    assert_eq!(q.pop().unwrap().kind, EventKind::Enter);
    let relay = q.pop().unwrap();
    assert_eq!(relay.kind, EventKind::Relay);
    assert_eq!(relay.payload, b"x".to_vec());
    assert_eq!(q.pop().unwrap().kind, EventKind::Exit);
    assert!(q.pop().is_none());
    assert_eq!(QUEUE_CAPACITY, 1000);
}

#[test]
fn events_are_dispatched_in_queue_order() {
    let mut reg: Registry<u32> = Registry::new();
    let mut q = EventQueue::new(QUEUE_CAPACITY);
    let (a, enter_a) = join(&mut reg, "alice\n", 1);
    let (mut b, enter_b) = join(&mut reg, "bob\n", 2);
    q.push(enter_a).unwrap();
    q.push(enter_b).unwrap();
    q.push(a.on_line(b"one\n").unwrap()).unwrap();
    q.push(b.on_line(b"two\n").unwrap()).unwrap();
    q.push(b.on_close().unwrap()).unwrap();
    let mut all = Vec::new();
    while let Some(e) = q.pop() {
        all.extend(run(&mut reg, &e));
    }
    assert_eq!(
        all,
        vec![
            pair("alice", "server\nWelcome alice!\n"),
            pair("alice", "server\nno users in chat\n"),
            pair("alice", "server\nbob has entered\n"),
            pair("bob", "server\nWelcome bob!\n"),
            pair("bob", "server\nusers in chat: alice\n"),
            pair("bob", "alice\none\n"),
            pair("alice", "bob\ntwo\n"),
            pair("alice", "server\nbob has left\n"),
        ]
    );
}

#[test]
fn dispatch_all_drains_the_queue_in_order() {
    let mut reg: Registry<u32> = Registry::new();
    let mut q = EventQueue::new(QUEUE_CAPACITY);
    let (a, enter_a) = join(&mut reg, "alice\n", 1);
    q.push(enter_a).unwrap();
    q.push(a.on_line(b"anyone?\n").unwrap()).unwrap();
    let (_b, enter_b) = join(&mut reg, "bob\n", 2);
    q.push(enter_b).unwrap();
    q.push(a.on_line(b"hi bob\n").unwrap()).unwrap();
    let mut batch = q.take_all();
    assert!(q.is_empty());
    assert_eq!(batch.len(), 4);
    let all: Vec<(String, String)> = dispatch_all(&mut reg, &mut batch).iter().map(text).collect();
    assert!(batch.is_empty());
    assert_eq!(
        all,
        vec![
            pair("alice", "server\nWelcome alice!\n"),
            pair("alice", "server\nno users in chat\n"),
            pair("alice", "server\nbob has entered\n"),
            pair("bob", "server\nWelcome bob!\n"),
            pair("bob", "server\nusers in chat: alice\n"),
            pair("bob", "alice\nhi bob\n"),
        ]
    );
}

#[test]
fn nothing_reaches_a_client_before_its_welcome() {
    let mut reg: Registry<u32> = Registry::new();
    let (a, enter_a) = join(&mut reg, "alice\n", 1);
    run(&mut reg, &enter_a);
    let (_b, enter_b) = join(&mut reg, "bob\n", 2);
    let relay = a.on_line(b"hello\n").unwrap();
    assert_eq!(run(&mut reg, &relay), Vec::<(String, String)>::new());
    let (mut c, enter_c) = join(&mut reg, "carol\n", 3);
    assert_eq!(
        run(&mut reg, &enter_c),
        vec![
            pair("alice", "server\ncarol has entered\n"),
            pair("carol", "server\nWelcome carol!\n"),
            pair("carol", "server\nusers in chat: alice\n"),
        ]
    );
    let exit_c = c.on_close().unwrap();
    assert_eq!(run(&mut reg, &exit_c), vec![pair("alice", "server\ncarol has left\n")]);
    assert_eq!(
        run(&mut reg, &enter_b),
        vec![
            pair("alice", "server\nbob has entered\n"),
            pair("bob", "server\nWelcome bob!\n"),
            pair("bob", "server\nusers in chat: alice\n"),
        ]
    );
}

#[test]
fn exit_before_enter_is_silent_and_frees_the_name() {
    let mut reg: Registry<u32> = Registry::new();
    let (a, enter_a) = join(&mut reg, "alice\n", 1);
    run(&mut reg, &enter_a);
    let (mut b, _enter_b) = join(&mut reg, "bob\n", 2);
    assert!(reg.contains(b"bob"));
    let exit_b = b.on_close().unwrap();
    assert_eq!(run(&mut reg, &exit_b), Vec::<(String, String)>::new());
    assert!(!reg.contains(b"bob"));
    assert_eq!(a.name(), &b"alice".to_vec());
}
