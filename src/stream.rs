use vstd::prelude::*;
use vstd::assert_seqs_equal;

verus! {

/// What the model server's streamed lines tell the user interface.
pub enum StreamEvent {
    /// An incremental piece of generated text, or an error-formatted string.
    Token(String),
    /// The end of the turn.
    Done,
}

/// The mathematical value of an event.
pub enum EventView {
    Token(Seq<char>),
    Done,
}

impl View for StreamEvent {
    type V = EventView;

    open spec fn view(&self) -> EventView {
        match self {
            StreamEvent::Token(s) => EventView::Token(s@),
            StreamEvent::Done => EventView::Done,
        }
    }
}

pub open spec fn opt_view(o: Option<String>) -> Option<Seq<char>> {
    match o {
        Some(t) => Some(t@),
        None => None,
    }
}

pub open spec fn events_view(v: Seq<StreamEvent>) -> Seq<EventView> {
    v.map_values(|e: StreamEvent| e@)
}

/// The text of a byte line, invalid sequences replaced by U+FFFD.
pub uninterp spec fn lossy_text(b: Seq<u8>) -> Seq<char>;

/// The string found in the JSON text `s` by following the object keys of
/// `path`, if `s` is JSON and a string stands there.
pub uninterp spec fn json_str_at(s: Seq<char>, path: Seq<Seq<char>>) -> Option<Seq<char>>;

/// The boolean under the key `key` of the JSON object `s`, if there is one.
pub uninterp spec fn json_bool_at(s: Seq<char>, key: Seq<char>) -> Option<bool>;

pub open spec fn strs_view(v: Seq<String>) -> Seq<Seq<char>> {
    v.map_values(|s: String| s@)
}

/// Relies on `String::from_utf8_lossy`: decoding never fails, and no bytes
/// give no text.
#[verifier::external_body]
fn utf8_lossy(b: &[u8]) -> (r: String)
    ensures
        r@ == lossy_text(b@),
        b@.len() == 0 ==> r@.len() == 0,
{
    String::from_utf8_lossy(b).into_owned()
}

/// Relies on `serde_json::from_str::<serde_json::Value>`, `Value::get` and
/// `Value::as_str`: the result depends on the text and the keys alone.
#[verifier::external_body]
fn str_at(line: &str, path: &Vec<String>) -> (r: Option<String>)
    ensures
        opt_view(r) == json_str_at(line@, strs_view(path@)),
{
    let v = serde_json::from_str::<serde_json::Value>(line).ok()?;
    let mut cur = &v;
    for key in path.iter() {
        cur = cur.get(key.as_str())?;
    }
    cur.as_str().map(|c| c.to_string())
}

/// Relies on `serde_json::from_str::<serde_json::Value>`, `Value::get` and
/// `Value::as_bool`: the result depends on the text and the key alone.
#[verifier::external_body]
fn bool_at(line: &str, key: &str) -> (r: Option<bool>)
    ensures
        r == json_bool_at(line@, key@),
{
    serde_json::from_str::<serde_json::Value>(line).ok()?.get(key)?.as_bool()
}

/// Where a streamed line carries its token.
pub open spec fn content_path() -> Seq<Seq<char>> {
    seq![seq!['m', 'e', 's', 's', 'a', 'g', 'e'], seq!['c', 'o', 'n', 't', 'e', 'n', 't']]
}

/// The key whose `true` ends the turn.
pub open spec fn done_key() -> Seq<char> {
    seq!['d', 'o', 'n', 'e']
}

/// What one line of the stream says: the string at `message.content`, if
/// any, and whether `done` is `true`. Anything else ends no turn.
pub open spec fn wire_fields(s: Seq<char>) -> (Option<Seq<char>>, bool) {
    (json_str_at(s, content_path()), json_bool_at(s, done_key()) == Some(true))
}

/// Reads the token and the end-of-turn flag of one streamed line.
pub fn decode_wire_line(line: &str) -> (r: (Option<String>, bool))
    ensures
        (opt_view(r.0), r.1) == wire_fields(line@),
{
    let mut path: Vec<String> = Vec::new();
    path.push(String::from_str("message"));
    path.push(String::from_str("content"));
    proof {
        reveal_strlit("message");
        reveal_strlit("content");
        reveal_strlit("done");
        assert_seqs_equal!(strs_view(path@), content_path());
        assert("done"@ =~= done_key());
    }
    let token = str_at(line, &path);
    let done = match bool_at(line, "done") {
        Some(b) => b,
        None => false,
    };
    (token, done)
}

/// The events of one decoded line: its token first, then the end of the turn.
pub open spec fn fields_events(token: Option<Seq<char>>, done: bool) -> Seq<EventView> {
    let t = match token {
        Some(s) => seq![EventView::Token(s)],
        None => Seq::empty(),
    };
    if done {
        t.push(EventView::Done)
    } else {
        t
    }
}

/// The events of one raw line; an empty line gives none.
pub open spec fn line_events_spec(line: Seq<u8>) -> Seq<EventView> {
    if line.len() == 0 {
        Seq::empty()
    } else {
        let f = wire_fields(lossy_text(line));
        fields_events(f.0, f.1)
    }
}

pub const NEWLINE: u8 = 10;

/// Reading `rest` after the partial line `cur`: the events of each line that a
/// newline completes, and the partial line left at the end.
pub open spec fn scan(cur: Seq<u8>, rest: Seq<u8>) -> (Seq<EventView>, Seq<u8>)
    decreases rest.len(),
{
    if rest.len() == 0 {
        (Seq::empty(), cur)
    } else if rest[0] == NEWLINE {
        let next = scan(Seq::empty(), rest.drop_first());
        (line_events_spec(cur) + next.0, next.1)
    } else {
        scan(cur.push(rest[0]), rest.drop_first())
    }
}

/// The events of one decoded line, in the order the user interface gets them.
pub fn line_events(token: Option<String>, done: bool) -> (r: Vec<StreamEvent>)
    ensures
        events_view(r@) == fields_events(opt_view(token), done),
{
    let ghost g = opt_view(token);
    let mut r: Vec<StreamEvent> = Vec::new();
    match token {
        Some(t) => r.push(StreamEvent::Token(t)),
        None => {},
    }
    if done {
        r.push(StreamEvent::Done);
    }
    proof {
        assert_seqs_equal!(events_view(r@), fields_events(g, done));
    }
    r
}

/// The events of one complete line (without its newline).
pub fn process_line(line: &[u8]) -> (r: Vec<StreamEvent>)
    ensures
        events_view(r@) == line_events_spec(line@),
{
    if line.len() == 0 {
        let r: Vec<StreamEvent> = Vec::new();
        proof {
            assert_seqs_equal!(events_view(r@), line_events_spec(line@));
        }
        return r;
    }
    let text = utf8_lossy(line);
    let fields = decode_wire_line(text.as_str());
    line_events(fields.0, fields.1)
}

proof fn lemma_events_view_concat(a: Seq<StreamEvent>, b: Seq<StreamEvent>)
    ensures
        events_view(a + b) == events_view(a) + events_view(b),
{
    assert_seqs_equal!(events_view(a + b), events_view(a) + events_view(b));
}

/// Splits the bytes of a streamed response into lines, keeping a line that a
/// chunk leaves unfinished until the next chunk completes it.
pub struct LineBuffer {
    pending: Vec<u8>,
}

impl LineBuffer {
    /// The bytes of the line that is not finished yet.
    pub closed spec fn partial(&self) -> Seq<u8> {
        self.pending@
    }

    pub fn new() -> (r: LineBuffer)
        ensures
            r.partial() == Seq::<u8>::empty(),
    {
        LineBuffer { pending: Vec::new() }
    }

    /// Takes in the next chunk and returns the events of the lines it
    /// completes, in order.
    pub fn push_chunk(&mut self, chunk: &[u8]) -> (r: Vec<StreamEvent>)
        ensures
            events_view(r@) == scan(old(self).partial(), chunk@).0,
            final(self).partial() == scan(old(self).partial(), chunk@).1,
    {
        let ghost start = self.pending@;
        let mut out: Vec<StreamEvent> = Vec::new();
        let mut i: usize = 0;
        proof {
            assert(chunk@.subrange(0, chunk@.len() as int) =~= chunk@);
            assert(events_view(out@) =~= Seq::<EventView>::empty());
            assert(Seq::<EventView>::empty() + scan(start, chunk@).0 =~= scan(start, chunk@).0);
        }
        while i < chunk.len()
            invariant
                0 <= i <= chunk@.len(),
                scan(start, chunk@).0 == events_view(out@) + scan(
                    self.pending@,
                    chunk@.subrange(i as int, chunk@.len() as int),
                ).0,
                scan(start, chunk@).1 == scan(
                    self.pending@,
                    chunk@.subrange(i as int, chunk@.len() as int),
                ).1,
            decreases chunk.len() - i,
        {
            let b = chunk[i];
            let ghost rest = chunk@.subrange(i as int, chunk@.len() as int);
            let ghost cur = self.pending@;
            proof {
                assert(rest.drop_first() =~= chunk@.subrange(i + 1, chunk@.len() as int));
                assert(rest[0] == b);
            }
            if b == NEWLINE {
                let mut evs = process_line(self.pending.as_slice());
                let ghost before = out@;
                let ghost line_evs = evs@;
                out.append(&mut evs);
                self.pending = Vec::new();
                proof {
                    lemma_events_view_concat(before, line_evs);
                    let next = scan(Seq::empty(), rest.drop_first());
                    assert(self.pending@ =~= Seq::<u8>::empty());
                    assert(events_view(before) + (line_events_spec(cur) + next.0) =~= (
                    events_view(before) + line_events_spec(cur)) + next.0);
                }
            } else {
                self.pending.push(b);
            }
            i = i + 1;
        }
        proof {
            assert(chunk@.subrange(i as int, chunk@.len() as int) =~= Seq::<u8>::empty());
            assert(events_view(out@) + Seq::<EventView>::empty() =~= events_view(out@));
        }
        out
    }

    /// Ends the stream: the events of the last line, if the stream did not
    /// end it with a newline. The buffer is left empty.
    pub fn flush(&mut self) -> (r: Vec<StreamEvent>)
        ensures
            events_view(r@) == line_events_spec(old(self).partial()),
            final(self).partial() == Seq::<u8>::empty(),
    {
        let r = process_line(self.pending.as_slice());
        self.pending = Vec::new();
        proof {
            assert(self.pending@ =~= Seq::<u8>::empty());
        }
        r
    }
}

/// The text that stands for a failure in the token stream.
pub open spec fn error_text(msg: Seq<char>) -> Seq<char> {
    seq!['[', 'e', 'r', 'r', 'o', 'r', ':', ' '] + msg + seq![']']
}

/// The token text that reports the failure `msg`.
pub fn error_token(msg: &str) -> (r: String)
    ensures
        r@ == error_text(msg@),
{
    let mut r = String::from_str("[error: ");
    proof {
        reveal_strlit("[error: ");
        reveal_strlit("]");
    }
    r.append(msg);
    r.append("]");
    proof {
        assert_seqs_equal!(r@, error_text(msg@));
    }
    r
}

/// What a stream that failed with `msg` tells the user interface: one
/// error token, and no end of turn.
pub fn failure_events(msg: &str) -> (r: Vec<StreamEvent>)
    ensures
        events_view(r@) == seq![EventView::Token(error_text(msg@))],
{
    let mut r: Vec<StreamEvent> = Vec::new();
    r.push(StreamEvent::Token(error_token(msg)));
    proof {
        assert_seqs_equal!(events_view(r@), seq![EventView::Token(error_text(msg@))]);
    }
    r
}

/// Whether an HTTP status code is a success (2xx); any other answer to a
/// generation request is a failure.
pub fn is_success_status(code: u16) -> (r: bool)
    ensures
        r == (200 <= code && code < 300),
{
    200 <= code && code < 300
}

/// What happens next to a generation turn that is being relayed.
pub enum RelayInput {
    /// The server answered with this status code; `msg` describes a failure.
    Status(u16, String),
    /// The next bytes of the response arrived.
    Chunk(Vec<u8>),
    /// The request or the reading of the response failed with `msg`.
    Failed(String),
    /// The server closed the response.
    Ended,
}

/// One step of relaying a turn: the events to publish, and whether to keep
/// reading. A failure publishes one error token and stops, without the
/// unfinished line; the end of the response publishes the unfinished line.
pub fn relay_step(buf: &mut LineBuffer, input: RelayInput) -> (r: (Vec<StreamEvent>, bool))
    ensures
        match input {
            RelayInput::Status(code, msg) => final(buf).partial() == old(buf).partial() && if 200
                <= code && code < 300 {
                r.0@.len() == 0 && r.1
            } else {
                events_view(r.0@) == seq![EventView::Token(error_text(msg@))] && !r.1
            },
            RelayInput::Chunk(b) => events_view(r.0@) == scan(old(buf).partial(), b@).0
                && final(buf).partial() == scan(old(buf).partial(), b@).1 && r.1,
            RelayInput::Failed(msg) => events_view(r.0@) == seq![
                EventView::Token(error_text(msg@)),
            ] && final(buf).partial() == old(buf).partial() && !r.1,
            RelayInput::Ended => events_view(r.0@) == line_events_spec(old(buf).partial())
                && final(buf).partial() == Seq::<u8>::empty() && !r.1,
        },
{
    match input {
        RelayInput::Status(code, msg) => {
            if is_success_status(code) {
                (Vec::new(), true)
            } else {
                (failure_events(msg.as_str()), false)
            }
        },
        RelayInput::Chunk(b) => (buf.push_chunk(b.as_slice()), true),
        RelayInput::Failed(msg) => (failure_events(msg.as_str()), false),
        RelayInput::Ended => (buf.flush(), false),
    }
}

} // verus!
