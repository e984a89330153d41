use ollama_chat::records::{
    add_message, chat_record, create_chat, history, message_record, model_names, order_chats,
    order_messages, set_chat_model, touch_chat, Chat, Message, Tag,
};

fn chat(id: &str, t: i64) -> Chat {
    chat_record(id.to_string(), id, "m", t)
}

fn msg(id: &str, t: i64) -> Message {
    message_record(id.to_string(), "c", "user", id, t)
}

fn ids_c(v: &[Chat]) -> Vec<String> {
    v.iter().map(|c| c.id.clone()).collect()
}

fn ids_m(v: &[Message]) -> Vec<String> {
    v.iter().map(|m| m.id.clone()).collect()
}

#[test]
fn created_chat_round_trip() {
    let c = create_chat("T", "m");
    let listed = order_chats(vec![c]);
    assert_eq!(listed.len(), 1);
    assert_eq!(listed[0].title, "T");
    assert_eq!(listed[0].model, "m");
    assert_eq!(listed[0].created_at, listed[0].updated_at);
    assert_eq!(listed[0].id.len(), 36);
}

#[test]
fn chats_most_recent_first() {
    let listed = order_chats(vec![chat("a", 10), chat("b", 30), chat("c", 20)]);
    assert_eq!(ids_c(&listed), vec!["b", "c", "a"]);
}

#[test]
fn equally_recent_chats_keep_order() {
    let listed = order_chats(vec![chat("a", 5), chat("b", 5), chat("c", 9)]);
    assert_eq!(ids_c(&listed), vec!["c", "a", "b"]);
}

#[test]
fn message_moves_chat_to_front() {
    let mut a = chat("a", 10);
    let b = chat("b", 20);
    let m = message_record("m1".to_string(), "a", "user", "hi", 25);
    touch_chat(&mut a, &m);
    assert_eq!(a.updated_at, 25);
    assert_eq!(a.created_at, 10);
    let listed = order_chats(vec![b, a]);
    assert_eq!(ids_c(&listed), vec!["a", "b"]);
}

#[test]
fn messages_oldest_first_and_stable() {
    let once = order_messages(vec![msg("x", 3), msg("y", 1), msg("z", 3), msg("w", 2)]);
    assert_eq!(ids_m(&once), vec!["y", "w", "x", "z"]);
    let twice = order_messages(once);
    assert_eq!(ids_m(&twice), vec!["y", "w", "x", "z"]);
}

#[test]
fn empty_lists() {
    assert!(order_chats(Vec::new()).is_empty());
    assert!(order_messages(Vec::new()).is_empty());
}

#[test]
fn new_message_fields() {
    let m = add_message("c1", "assistant", "hello");
    assert_eq!(m.chat_id, "c1");
    assert_eq!(m.role, "assistant");
    assert_eq!(m.content, "hello");
    assert_ne!(m.id, add_message("c1", "assistant", "hello").id);
}

#[test]
fn set_model_bumps_activity() {
    let mut c = chat("a", 1);
    set_chat_model(&mut c, "llama", 99);
    assert_eq!(c.model, "llama");
    assert_eq!(c.updated_at, 99);
    assert_eq!(c.created_at, 1);
}

#[test]
fn history_keeps_roles_and_order() {
    let msgs = vec![
        message_record("1".to_string(), "c", "user", "hi", 1),
        message_record("2".to_string(), "c", "assistant", "yo", 2),
    ];
    let h = history(&msgs);
    assert_eq!(h.len(), 2);
    assert_eq!((h[0].role.as_str(), h[0].content.as_str()), ("user", "hi"));
    assert_eq!((h[1].role.as_str(), h[1].content.as_str()), ("assistant", "yo"));
}

#[test]
fn model_names_in_server_order() {
    let names = model_names(vec![Tag { name: "b".to_string() }, Tag { name: "a".to_string() }]);
    assert_eq!(names, vec!["b", "a"]);
}

#[test]
fn newest_message_listed_last_among_ties() {
    let listed = order_messages(vec![msg("b", 5), msg("a", 2), msg("c", 5), msg("new", 5)]);
    assert_eq!(ids_m(&listed), vec!["a", "b", "c", "new"]);
}

#[test]
fn listing_same_rows_twice_gives_same_order() {
    let rows = || vec![chat("a", 3), chat("b", 7), chat("c", 3), chat("d", 7)];
    let first = order_chats(rows());
    let second = order_chats(rows());
    assert_eq!(ids_c(&first), vec!["b", "d", "a", "c"]);
    assert_eq!(ids_c(&first), ids_c(&second));
}
