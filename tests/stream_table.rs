use ollama_chat::streams::StreamTable;
use tokio::runtime::{Builder, Runtime};
use tokio::task::JoinHandle;

fn runtime() -> Runtime {
    Builder::new_current_thread().build().unwrap()
}

fn handle(rt: &Runtime) -> JoinHandle<()> {
    rt.spawn(async {})
}

#[test]
fn remove_unknown_stream_is_no_op() {
    let rt = runtime();
    let mut t = StreamTable::new();
    assert!(t.register("a".to_string(), handle(&rt)).is_ok());
    assert!(t.remove(&"zzz".to_string()).is_none());
    assert!(t.remove(&"a".to_string()).is_some());
}

#[test]
fn remove_twice_gives_handle_once() {
    let rt = runtime();
    let mut t = StreamTable::new();
    assert!(t.register("s".to_string(), handle(&rt)).is_ok());
    assert!(t.remove(&"s".to_string()).is_some());
    assert!(t.remove(&"s".to_string()).is_none());
}

#[test]
fn duplicate_id_is_refused() {
    let rt = runtime();
    let mut t = StreamTable::new();
    assert!(t.register("s".to_string(), handle(&rt)).is_ok());
    assert!(t.register("s".to_string(), handle(&rt)).is_err());
    assert!(t.remove(&"s".to_string()).is_some());
    assert!(t.remove(&"s".to_string()).is_none());
}

#[test]
fn cancelled_stream_handle_aborts() {
    let rt = runtime();
    let mut t = StreamTable::new();
    let h = rt.spawn(async {
        std::future::pending::<()>().await;
    });
    assert!(t.register("long".to_string(), h).is_ok());
    let taken = t.remove(&"long".to_string()).unwrap();
    taken.abort();
    let res = rt.block_on(taken);
    assert!(res.unwrap_err().is_cancelled());
}
