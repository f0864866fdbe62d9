use ravenvoice::engine::{Cmd, Shared};
use ravenvoice::ipc::{answer, compose, parse_request, read_reply, socket_path, Request};

#[test]
fn requests_are_understood() {
    assert!(matches!(parse_request(""), Request::Probe));
    assert!(matches!(parse_request("toggle"), Request::Command(Cmd::Toggle)));
    assert!(matches!(parse_request("start\n"), Request::Command(Cmd::Start)));
    assert!(matches!(parse_request("stop"), Request::Command(Cmd::Stop)));
    assert!(matches!(parse_request("speak-last"), Request::Command(Cmd::SpeakLast)));
    assert!(matches!(parse_request("stop-speaking"), Request::Command(Cmd::StopSpeaking)));
    assert!(matches!(parse_request("show"), Request::SetVisible(Some(true))));
    assert!(matches!(parse_request("hide"), Request::SetVisible(Some(false))));
    assert!(matches!(parse_request("toggle-overlay"), Request::SetVisible(None)));
    assert!(matches!(parse_request("status"), Request::Status));
    assert!(matches!(parse_request("quit"), Request::Quit));
    assert!(matches!(
        parse_request("speak two\nlines  here"),
        Request::Command(Cmd::Speak(t)) if t == "two\nlines  here"
    ));
    assert!(matches!(
        parse_request("speak"),
        Request::Command(Cmd::Speak(t)) if t.is_empty()
    ));
    assert!(matches!(parse_request("Toggle"), Request::Unknown(v) if v == "Toggle"));
    // A leading space makes the verb empty.
    assert!(matches!(parse_request(" toggle"), Request::Unknown(v) if v.is_empty()));
}

#[test]
fn what_is_sent_arrives() {
    for text in ["hello", "", " two  spaces", "a\nb"] {
        let msg = compose("speak", Some(text));
        assert!(matches!(
            parse_request(&msg),
            Request::Command(Cmd::Speak(t)) if t == text
        ));
    }
    assert_eq!(compose("toggle", None), "toggle");
    assert_eq!(compose("speak", Some("hi")), "speak hi");
}

#[test]
fn answers_are_lines() {
    let shared = Shared { listening: true, speaking: false, last_text: "say \"hi\"\n".into() };
    assert_eq!(answer(&Request::Probe, &shared), None);
    assert_eq!(answer(&Request::Command(Cmd::Toggle), &shared).as_deref(), Some("ok\n"));
    assert_eq!(answer(&Request::SetVisible(None), &shared).as_deref(), Some("ok\n"));
    assert_eq!(answer(&Request::Quit, &shared).as_deref(), Some("ok\n"));
    assert_eq!(
        answer(&Request::Status, &shared).as_deref(),
        Some("{\"last_text\":\"say \\\"hi\\\"\\n\",\"listening\":true,\"speaking\":false}\n")
    );
    assert_eq!(
        answer(&Request::Unknown("da\"nce".into()), &shared).as_deref(),
        Some("error: unknown request \"da\\\"nce\"\n")
    );
}

#[test]
fn replies_are_read() {
    assert_eq!(read_reply("ok\n"), Ok("ok".to_string()));
    assert_eq!(
        read_reply("error: unknown request \"x\"\n"),
        Err("unknown request \"x\"".to_string())
    );
    assert_eq!(read_reply(""), Ok(String::new()));
    assert_eq!(read_reply(" error: x"), Ok(" error: x".to_string()));
}

#[test]
fn the_socket_lies_in_the_runtime_directory() {
    assert_eq!(socket_path(Some("/run/user/1000"), "/tmp"), "/run/user/1000/ravenvoice.sock");
    assert_eq!(socket_path(None, "/tmp"), "/tmp/ravenvoice.sock");
    assert_eq!(socket_path(Some("/run/"), "/tmp"), "/run/ravenvoice.sock");
}
