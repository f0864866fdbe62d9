//! The control socket at `$XDG_RUNTIME_DIR/ravenvoice.sock`, so that other programs, scripts and
//! compositor key bindings can drive a running instance.
//!
//! Protocol: the client writes one request and shuts down its write side; the server replies with
//! one line. A request is a verb, optionally followed by a space and an argument (which may span
//! lines).

use vstd::prelude::*;

use crate::engine;
use crate::engine::{Cmd, Shared};
use crate::paths;
use crate::paths::join_path;
use crate::text;
use crate::text::{
    append, concat, copy_chars, debug_quote, from_chars, same_text, starts_with, to_chars, trimmed,
    trimmed_end,
};

verus! {

/// Where the socket lies: in the runtime directory, or else among the temporary files.
pub fn socket_path(runtime_dir: Option<&str>, temp_dir: &str) -> (r: String)
    ensures
        r@ == paths::below(
            match paths::text_of(runtime_dir) {
                Some(d) => d,
                None => temp_dir@,
            },
            "ravenvoice.sock"@,
        ),
{
    match runtime_dir {
        Some(d) => join_path(d, "ravenvoice.sock"),
        None => join_path(temp_dir, "ravenvoice.sock"),
    }
}

// ---------------------------------------------------------------------------
// The client's side
// ---------------------------------------------------------------------------

pub open spec fn request_text(verb: Seq<char>, arg: Option<Seq<char>>) -> Seq<char> {
    match arg {
        Some(a) => verb.push(' ') + a,
        None => verb,
    }
}

/// What is written to the socket.
pub fn compose(verb: &str, arg: Option<&str>) -> (r: String)
    ensures
        r@ == request_text(verb@, paths::text_of(arg)),
{
    let mut msg = verb.to_owned();
    if let Some(a) = arg {
        msg.push(' ');
        append(&mut msg, a);
    }
    msg
}

/// A reply, or the error that it reports.
pub open spec fn reply_read(reply: Seq<char>) -> Result<Seq<char>, Seq<char>> {
    let t = text::trim_end(reply);
    if "error: "@.is_prefix_of(t) {
        Err(t.skip("error: "@.len() as int))
    } else {
        Ok(t)
    }
}

/// Understands what came back.
pub fn read_reply(reply: &str) -> (r: Result<String, String>)
    ensures
        match reply_read(reply@) {
            Ok(t) => r matches Ok(s) && s@ == t,
            Err(t) => r matches Err(s) && s@ == t,
        },
{
    let t = trimmed_end(&to_chars(reply));
    let mark = to_chars("error: ");
    if starts_with(&t, &mark) {
        let rest = copy_chars(&t, mark.len(), t.len());
        assert(rest@ =~= t@.skip(mark@.len() as int));
        Err(from_chars(&rest))
    } else {
        Ok(from_chars(&t))
    }
}

// ---------------------------------------------------------------------------
// The server's side
// ---------------------------------------------------------------------------

/// What stands before the first space.
pub open spec fn first_part(s: Seq<char>) -> Seq<char>
    decreases s.len(),
{
    if s.len() == 0 || s[0] == ' ' {
        Seq::empty()
    } else {
        seq![s[0]] + first_part(s.skip(1))
    }
}

/// The verb of a request.
pub open spec fn verb_of(msg: Seq<char>) -> Seq<char> {
    text::trim(first_part(msg))
}

/// The argument of a request: whatever follows the first space.
pub open spec fn arg_of(msg: Seq<char>) -> Seq<char> {
    if first_part(msg).len() < msg.len() {
        msg.skip(first_part(msg).len() as int + 1)
    } else {
        Seq::empty()
    }
}

/// What a client asks for.
pub enum Request {
    /// Nothing: the client only looked whether anyone answers.
    Probe,
    /// Something of the engine.
    Command(Cmd),
    /// To show or shrink the overlay, or to do the other of the two.
    SetVisible(Option<bool>),
    Status,
    Quit,
    /// Something unknown.
    Unknown(String),
}

/// A request with its texts as sequences of characters.
pub enum Asked {
    Probe,
    Command(engine::Order),
    SetVisible(Option<bool>),
    Status,
    Quit,
    Unknown(Seq<char>),
}

impl View for Request {
    type V = Asked;

    open spec fn view(&self) -> Asked {
        match self {
            Request::Probe => Asked::Probe,
            Request::Command(c) => Asked::Command(c@),
            Request::SetVisible(v) => Asked::SetVisible(*v),
            Request::Status => Asked::Status,
            Request::Quit => Asked::Quit,
            Request::Unknown(verb) => Asked::Unknown(verb@),
        }
    }
}

pub open spec fn understood(msg: Seq<char>) -> Asked {
    let verb = verb_of(msg);
    if msg.len() == 0 {
        Asked::Probe
    } else if verb == "toggle"@ {
        Asked::Command(engine::Order::Toggle)
    } else if verb == "start"@ {
        Asked::Command(engine::Order::Start)
    } else if verb == "stop"@ {
        Asked::Command(engine::Order::Stop)
    } else if verb == "speak"@ {
        Asked::Command(engine::Order::Speak(arg_of(msg)))
    } else if verb == "speak-last"@ {
        Asked::Command(engine::Order::SpeakLast)
    } else if verb == "stop-speaking"@ {
        Asked::Command(engine::Order::StopSpeaking)
    } else if verb == "show"@ {
        Asked::SetVisible(Some(true))
    } else if verb == "hide"@ {
        Asked::SetVisible(Some(false))
    } else if verb == "toggle-overlay"@ {
        Asked::SetVisible(None)
    } else if verb == "status"@ {
        Asked::Status
    } else if verb == "quit"@ {
        Asked::Quit
    } else {
        Asked::Unknown(verb)
    }
}

fn first_space(s: &[char]) -> (r: usize)
    ensures
        r <= s@.len(),
        first_part(s@) == s@.take(r as int),
{
    let mut i: usize = 0;
    assert(s@.skip(0) =~= s@);
    assert(s@.take(0) =~= Seq::empty());
    while i < s.len()
        invariant
            i <= s.len(),
            first_part(s@) == s@.take(i as int) + first_part(s@.skip(i as int)),
        decreases s.len() - i,
    {
        if s[i] == ' ' {
            assert(first_part(s@.skip(i as int)) =~= Seq::empty());
            assert(s@.take(i as int) + Seq::empty() =~= s@.take(i as int));
            return i;
        }
        assert(s@.skip(i as int).skip(1) =~= s@.skip(i + 1));
        assert(s@.take(i as int) + (seq![s@[i as int]] + first_part(s@.skip(i + 1))) =~= s@.take(
            i + 1,
        ) + first_part(s@.skip(i + 1)));
        i += 1;
    }
    assert(s@.take(i as int) + first_part(s@.skip(i as int)) =~= s@.take(i as int));
    i
}

/// Understands a request.
pub fn parse_request(msg: &str) -> (r: Request)
    ensures
        r@ == understood(msg@),
{
    let m = to_chars(msg);
    if m.len() == 0 {
        return Request::Probe;
    }
    let n = first_space(&m);
    let front = copy_chars(&m, 0, n);
    assert(front@ =~= m@.take(n as int));
    let verb = from_chars(&trimmed(&front));
    let arg = if n < m.len() {
        let rest = copy_chars(&m, n + 1, m.len());
        assert(rest@ =~= m@.skip(n + 1));
        from_chars(&rest)
    } else {
        String::new()
    };
    if same_text(&verb, "toggle") {
        Request::Command(Cmd::Toggle)
    } else if same_text(&verb, "start") {
        Request::Command(Cmd::Start)
    } else if same_text(&verb, "stop") {
        Request::Command(Cmd::Stop)
    } else if same_text(&verb, "speak") {
        Request::Command(Cmd::Speak(arg))
    } else if same_text(&verb, "speak-last") {
        Request::Command(Cmd::SpeakLast)
    } else if same_text(&verb, "stop-speaking") {
        Request::Command(Cmd::StopSpeaking)
    } else if same_text(&verb, "show") {
        Request::SetVisible(Some(true))
    } else if same_text(&verb, "hide") {
        Request::SetVisible(Some(false))
    } else if same_text(&verb, "toggle-overlay") {
        Request::SetVisible(None)
    } else if same_text(&verb, "status") {
        Request::Status
    } else if same_text(&verb, "quit") {
        Request::Quit
    } else {
        Request::Unknown(verb)
    }
}

/// A JSON object of two flags and a text, each under its key.
pub uninterp spec fn json_object(
    first_key: Seq<char>,
    first: bool,
    second_key: Seq<char>,
    second: bool,
    third_key: Seq<char>,
    third: Seq<char>,
) -> Seq<char>;

/// `serde_json::Value::to_string` of a `serde_json::Map` with the three entries: the compact JSON
/// text of the object, which is only named.
#[verifier::external_body]
pub(crate) fn object_text(
    first_key: &str,
    first: bool,
    second_key: &str,
    second: bool,
    third_key: &str,
    third: &str,
) -> (r: String)
    ensures
        r@ == json_object(first_key@, first, second_key@, second, third_key@, third@),
{
    let mut map = serde_json::Map::new();
    map.insert(first_key.to_string(), serde_json::Value::Bool(first));
    map.insert(second_key.to_string(), serde_json::Value::Bool(second));
    map.insert(third_key.to_string(), serde_json::Value::String(third.to_string()));
    serde_json::Value::Object(map).to_string()
}

/// What is answered, without the end of the line; a probe gets no answer.
pub open spec fn answer_text(asked: Asked, shared: Shared) -> Option<Seq<char>> {
    match asked {
        Asked::Probe => None,
        Asked::Status => Some(
            json_object(
                "listening"@,
                shared.listening,
                "speaking"@,
                shared.speaking,
                "last_text"@,
                shared.last_text@,
            ),
        ),
        Asked::Unknown(verb) => Some("error: unknown request "@ + text::debug_text(verb)),
        _ => Some("ok"@),
    }
}

/// The reply to a request, with the end of its line.
pub fn answer(request: &Request, shared: &Shared) -> (r: Option<String>)
    ensures
        r is Some <==> answer_text(request@, *shared) is Some,
        r matches Some(line) ==> line@ == answer_text(request@, *shared)->0.push('\n'),
{
    let mut line = match request {
        Request::Probe => return None,
        Request::Status => object_text(
            "listening",
            shared.listening,
            "speaking",
            shared.speaking,
            "last_text",
            &shared.last_text,
        ),
        Request::Unknown(verb) => concat("error: unknown request ", &debug_quote(verb)),
        _ => "ok".to_owned(),
    };
    line.push('\n');
    Some(line)
}

// ---------------------------------------------------------------------------
// Laws
// ---------------------------------------------------------------------------

proof fn lemma_first_part(verb: Seq<char>, rest: Seq<char>)
    requires
        text::is_word(verb),
        rest.len() == 0 || rest[0] == ' ',
    ensures
        first_part(verb + rest) == verb,
    decreases verb.len(),
{
    let s = verb + rest;
    if verb.len() == 1 {
        assert(s.skip(1) =~= rest);
        assert(first_part(rest) =~= Seq::empty());
        assert(seq![s[0]] + Seq::empty() =~= verb);
    } else {
        let tail = verb.skip(1);
        assert forall|i: int| 0 <= i < tail.len() implies !text::whitespace(#[trigger] tail[i]) by {
            assert(!text::whitespace(verb[i + 1]));
        }
        lemma_first_part(tail, rest);
        assert(s.skip(1) =~= tail + rest);
        assert(seq![s[0]] + tail =~= verb);
    }
    assert(!text::whitespace(verb[0]));
}

/// What a client sends is what the server understands: the verb, if it is a single word, and the
/// argument, whatever it holds.
pub proof fn law_requests_arrive(verb: Seq<char>, arg: Option<Seq<char>>)
    requires
        text::is_word(verb),
    ensures
        verb_of(request_text(verb, arg)) == verb,
        arg_of(request_text(verb, arg)) == match arg {
            Some(a) => a,
            None => Seq::empty(),
        },
{
    let msg = request_text(verb, arg);
    match arg {
        Some(a) => {
            assert(msg =~= verb + (seq![' '] + a));
            lemma_first_part(verb, seq![' '] + a);
            assert(msg.skip(verb.len() as int + 1) =~= a);
        },
        None => {
            assert(msg =~= verb + Seq::empty());
            lemma_first_part(verb, Seq::empty());
        },
    }
    assert(!text::whitespace(verb[0]));
    assert(!text::whitespace(verb[verb.len() - 1]));
}

/// Text to be read aloud reaches the engine as it was given, on however many lines.
pub proof fn law_spoken_text_arrives(t: Seq<char>)
    ensures
        understood(request_text("speak"@, Some(t))) == Asked::Command(engine::Order::Speak(t)),
{
    reveal_strlit("speak");
    reveal_strlit("toggle");
    reveal_strlit("start");
    reveal_strlit("stop");
    assert(text::is_word("speak"@));
    law_requests_arrive("speak"@, Some(t));
    assert("start"@[1] == 't');
    assert("speak"@[1] == 'p');
}

/// A reply is read as it was written, and an error as an error, if it does not end in white space
/// itself.
pub proof fn law_replies_arrive(t: Seq<char>)
    requires
        text::trim_end(t) == t,
    ensures
        reply_read(t.push('\n')) == if "error: "@.is_prefix_of(t) {
            Err(t.skip("error: "@.len() as int))
        } else {
            Ok(t)
        },
{
    assert(t.push('\n').drop_last() =~= t);
}

/// The verbs and what each asks for; anything else is unknown, and an empty request asks nothing.
pub proof fn law_verbs_ask_for_their_thing(verb: Seq<char>, arg: Option<Seq<char>>)
    requires
        text::is_word(verb),
    ensures
        ({
            let u = understood(request_text(verb, arg));
            let a = match arg {
                Some(a) => a,
                None => Seq::empty(),
            };
            &&& verb == "toggle"@ ==> u == Asked::Command(engine::Order::Toggle)
            &&& verb == "start"@ ==> u == Asked::Command(engine::Order::Start)
            &&& verb == "stop"@ ==> u == Asked::Command(engine::Order::Stop)
            &&& verb == "speak"@ ==> u == Asked::Command(engine::Order::Speak(a))
            &&& verb == "speak-last"@ ==> u == Asked::Command(engine::Order::SpeakLast)
            &&& verb == "stop-speaking"@ ==> u == Asked::Command(engine::Order::StopSpeaking)
            &&& verb == "show"@ ==> u == Asked::SetVisible(Some(true))
            &&& verb == "hide"@ ==> u == Asked::SetVisible(Some(false))
            &&& verb == "toggle-overlay"@ ==> u == Asked::SetVisible(None)
            &&& verb == "status"@ ==> u is Status
            &&& verb == "quit"@ ==> u is Quit
            &&& verb != "toggle"@ && verb != "start"@ && verb != "stop"@ && verb != "speak"@ && verb
                != "speak-last"@ && verb != "stop-speaking"@ && verb != "show"@ && verb != "hide"@
                && verb != "toggle-overlay"@ && verb != "status"@ && verb != "quit"@ ==> u
                == Asked::Unknown(verb)
        }),
        understood(Seq::empty()) is Probe,
{
    reveal_strlit("toggle");
    reveal_strlit("start");
    reveal_strlit("stop");
    reveal_strlit("speak");
    reveal_strlit("speak-last");
    reveal_strlit("stop-speaking");
    reveal_strlit("show");
    reveal_strlit("hide");
    reveal_strlit("toggle-overlay");
    reveal_strlit("status");
    reveal_strlit("quit");
    // Verbs of one length differ in one of these places.
    let places = (verb[0], verb[1], verb[2]);
    law_requests_arrive(verb, arg);
}

/// A request is taken apart at its first space; blanks around the verb do not count, and the
/// argument is kept to the letter.
pub proof fn law_requests_are_taken_apart_at_the_first_space(front: Seq<char>, rest: Seq<char>)
    requires
        !front.contains(' '),
    ensures
        verb_of(front.push(' ') + rest) == text::trim(front),
        arg_of(front.push(' ') + rest) == rest,
        verb_of(front) == text::trim(front),
        arg_of(front).len() == 0,
{
    lemma_first_part_ends(front, rest);
    let msg = front.push(' ') + rest;
    assert(msg.skip(front.len() as int + 1) =~= rest);
}

proof fn lemma_first_part_ends(front: Seq<char>, rest: Seq<char>)
    requires
        !front.contains(' '),
    ensures
        first_part(front.push(' ') + rest) == front,
        first_part(front) == front,
    decreases front.len(),
{
    let msg = front.push(' ') + rest;
    if front.len() == 0 {
        assert(first_part(msg) =~= front);
        assert(first_part(front) =~= front);
    } else {
        let tail = front.skip(1);
        assert(!tail.contains(' ')) by {
            if tail.contains(' ') {
                let i = tail.index_of(' ');
                assert(front[i + 1] == ' ');
            }
        }
        assert(front.contains(front[0]));
        lemma_first_part_ends(tail, rest);
        assert(msg.skip(1) =~= tail.push(' ') + rest);
        assert(seq![front[0]] + tail =~= front);
    }
}

/// Every request but a probe is answered: the state in JSON where it is asked for, an error that
/// names the verb where it is unknown, and otherwise "ok".
pub proof fn law_requests_are_answered(asked: Asked, shared: Shared)
    ensures
        asked is Probe ==> answer_text(asked, shared) is None,
        asked is Status ==> answer_text(asked, shared) == Some(
            json_object(
                "listening"@,
                shared.listening,
                "speaking"@,
                shared.speaking,
                "last_text"@,
                shared.last_text@,
            ),
        ),
        asked is Unknown ==> answer_text(asked, shared) == Some(
            "error: unknown request "@ + text::debug_text(asked->Unknown_0),
        ),
        asked is Command || asked is SetVisible || asked is Quit ==> answer_text(asked, shared)
            == Some("ok"@),
{
}

/// A reply that starts with the mark of an error is one, and only that mark is taken off; any
/// other is handed on as it is, without the white space at its end.
pub proof fn law_errors_are_told_by_their_mark(reply: Seq<char>)
    ensures
        ({
            let t = text::trim_end(reply);
            let marked = t.len() >= 7 && t.take(7) == "error: "@;
            &&& marked ==> reply_read(reply) == Err::<Seq<char>, Seq<char>>(t.skip(7))
            &&& !marked ==> reply_read(reply) == Ok::<Seq<char>, Seq<char>>(t)
        }),
{
    reveal_strlit("error: ");
    let t = text::trim_end(reply);
    if t.len() >= 7 {
        assert(t.take(7) =~= t.subrange(0, 7));
    }
}

/// The socket lies in the runtime directory, or in the temporary one where there is none.
pub proof fn law_the_socket_is_found(runtime_dir: &str, temp_dir: &str, r: String)
    requires
        runtime_dir@.len() > 0,
        runtime_dir@.last() != '/',
        temp_dir@.len() > 0,
        temp_dir@.last() != '/',
    ensures
        call_ensures(socket_path, (Some(runtime_dir), temp_dir), r) ==> r@ == runtime_dir@
            + "/ravenvoice.sock"@,
        call_ensures(socket_path, (None, temp_dir), r) ==> r@ == temp_dir@ + "/ravenvoice.sock"@,
{
    reveal_strlit("ravenvoice.sock");
    reveal_strlit("/ravenvoice.sock");
    assert(runtime_dir@.push('/') + "ravenvoice.sock"@ =~= runtime_dir@ + "/ravenvoice.sock"@);
    assert(temp_dir@.push('/') + "ravenvoice.sock"@ =~= temp_dir@ + "/ravenvoice.sock"@);
}

} // verus!
