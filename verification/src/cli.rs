//! What the command line prints, and which display it starts on.

use vstd::prelude::*;

use crate::audio;
use crate::audio::MicInfo;
use crate::config::HotkeyConfig;
use crate::hotkey;
use crate::text;
use crate::text::{
    append, concat, concat3, ends_with, extend_chars, from_chars, numeral_chars, same_text,
    starts_with, to_chars,
};

verus! {

pub open spec fn lines(v: Seq<String>) -> Seq<Seq<char>> {
    v.map_values(|s: String| s@)
}

fn push_line(out: &mut Vec<String>, line: String)
    ensures
        lines(final(out)@) == lines(old(out)@).push(line@),
{
    let ghost before = out@;
    out.push(line);
    assert(lines(out@) =~= lines(before).push(line@));
}

// ---------------------------------------------------------------------------
// The compositor's socket
// ---------------------------------------------------------------------------

/// The file is a compositor's socket by its name.
pub open spec fn is_display(name: Seq<char>) -> bool {
    "wayland-"@.is_prefix_of(name) && !".lock"@.is_suffix_of(name)
}

/// The first display, in the order of their names, among the sockets of the runtime directory.
pub fn pick_display(sockets: &[String]) -> (r: Option<usize>)
    ensures
        r is None <==> forall|j: int|
            0 <= j < sockets@.len() ==> !is_display(#[trigger] sockets@[j]@),
        r matches Some(i) ==> {
            &&& i < sockets@.len()
            &&& is_display(sockets@[i as int]@)
            &&& forall|j: int|
                0 <= j < sockets@.len() && is_display(#[trigger] sockets@[j]@)
                    ==> !audio::text_before(sockets@[j]@, sockets@[i as int]@)
        },
{
    let mut best: Option<usize> = None;
    let mut i: usize = 0;
    while i < sockets.len()
        invariant
            i <= sockets.len(),
            best is None ==> forall|j: int|
                0 <= j < i ==> !is_display(#[trigger] sockets@[j]@),
            best matches Some(b) ==> {
                &&& b < i
                &&& is_display(sockets@[b as int]@)
                &&& forall|j: int|
                    0 <= j < i && is_display(#[trigger] sockets@[j]@) ==> !audio::text_before(
                        sockets@[j]@,
                        sockets@[b as int]@,
                    )
            },
        decreases sockets.len() - i,
    {
        let name = to_chars(&sockets[i]);
        if starts_with(&name, &to_chars("wayland-")) && !ends_with(&name, &to_chars(".lock")) {
            match best {
                None => {
                    proof {
                        audio::lemma_text_not_before_itself(name@);
                    }
                    best = Some(i);
                },
                Some(b) => {
                    let before = audio::is_text_before(&sockets[i], &sockets[b]);
                    proof {
                        audio::lemma_text_not_before_itself(name@);
                        audio::lemma_text_before_asymmetric(name@, sockets@[b as int]@);
                        assert forall|j: int|
                            before && 0 <= j < i && is_display(
                                #[trigger] sockets@[j]@,
                            ) implies !audio::text_before(sockets@[j]@, name@) by {
                            audio::lemma_text_before_transitive(
                                sockets@[j]@,
                                sockets@[b as int]@,
                                name@,
                            );
                        }
                    }
                    if before {
                        best = Some(i);
                    }
                },
            }
        }
        i += 1;
    }
    best
}

// ---------------------------------------------------------------------------
// Microphones
// ---------------------------------------------------------------------------

pub open spec fn device_text(m: audio::Mic, chosen: Option<Seq<char>>) -> Seq<char> {
    let mark = if chosen == Some(m.id) {
        "* "@
    } else {
        "  "@
    };
    let default = if m.is_default {
        " [system default]"@
    } else {
        ""@
    };
    mark + m.display_text() + default + "\n    id: "@ + m.id
}

pub open spec fn device_list(mics: Seq<audio::Mic>, chosen: Option<Seq<char>>) -> Seq<Seq<char>> {
    mics.map_values(|m: audio::Mic| device_text(m, chosen))
}

/// What `ravenvoice devices` prints.
pub open spec fn devices_text(
    mics: Seq<audio::Mic>,
    chosen: Option<Seq<char>>,
    config_path: Seq<char>,
) -> Seq<Seq<char>> {
    let none = if mics.len() == 0 {
        seq!["No microphones found."@]
    } else {
        Seq::empty()
    };
    (none + device_list(mics, chosen)).push(
        "\nTo pin one, set `device = \"<id>\"` under [audio] in "@ + config_path,
    )
}

pub fn devices_report(mics: &[MicInfo], chosen: &Option<String>, config_path: &str) -> (r: Vec<
    String,
>)
    ensures
        lines(r@) == devices_text(
            audio::mics(mics@),
            crate::engine::chosen(*chosen),
            config_path@,
        ),
{
    let ghost ms = audio::mics(mics@);
    let ghost want = crate::engine::chosen(*chosen);
    let mut out: Vec<String> = Vec::new();
    if mics.len() == 0 {
        out.push("No microphones found.".to_owned());
    }
    let ghost head = lines(out@);
    assert(head =~= if ms.len() == 0 {
        seq!["No microphones found."@]
    } else {
        Seq::empty()
    });
    let mut i: usize = 0;
    assert(head + device_list(ms, want).take(0) =~= head);
    while i < mics.len()
        invariant
            i <= mics.len(),
            ms == audio::mics(mics@),
            want == crate::engine::chosen(*chosen),
            lines(out@) == head + device_list(ms, want).take(i as int),
        decreases mics.len() - i,
    {
        let m = &mics[i];
        assert(ms[i as int] == m@);
        let is_chosen = match chosen {
            Some(id) => same_text(id, &m.id),
            None => false,
        };
        let mut line = concat(
            if is_chosen {
                "* "
            } else {
                "  "
            },
            &m.display(),
        );
        append(
            &mut line,
            if m.is_default {
                " [system default]"
            } else {
                ""
            },
        );
        append(&mut line, "\n    id: ");
        append(&mut line, &m.id);
        assert(line@ == device_text(m@, want));
        push_line(&mut out, line);
        assert(head + device_list(ms, want).take(i + 1) =~= (head + device_list(ms, want).take(
            i as int,
        )).push(device_text(m@, want)));
        i += 1;
    }
    assert(device_list(ms, want).take(i as int) =~= device_list(ms, want));
    push_line(
        &mut out,
        concat("\nTo pin one, set `device = \"<id>\"` under [audio] in ", config_path),
    );
    out
}

// ---------------------------------------------------------------------------
// Models
// ---------------------------------------------------------------------------

/// A text made up with spaces to a width.
pub open spec fn padded(s: Seq<char>, width: nat) -> Seq<char> {
    s + Seq::new(
        if s.len() < width {
            (width - s.len()) as nat
        } else {
            0
        },
        |i: int| ' ',
    )
}

fn pad_chars(s: &str, width: usize) -> (r: Vec<char>)
    ensures
        r@ == padded(s@, width as nat),
{
    let mut out = to_chars(s);
    assert(out@ =~= s@ + Seq::new(0, |i: int| ' '));
    while out.len() < width
        invariant
            out@.len() >= s@.len(),
            out@.len() == s@.len() || out@.len() <= width,
            out@ == s@ + Seq::new((out@.len() - s@.len()) as nat, |i: int| ' '),
        decreases width - out.len(),
    {
        out.push(' ');
        assert(out@ =~= s@ + Seq::new((out@.len() - s@.len()) as nat, |i: int| ' '));
    }
    out
}

/// What `ravenvoice models` prints of a model.
pub fn model_line(name: &str, about: &str, current: &str, installed: bool) -> (r: String)
    ensures
        r@ == (if name@ == current@ {
            "* "@
        } else {
            "  "@
        }) + padded(name@, 16) + " "@ + padded(about@, 40) + " "@ + (if installed {
            "installed"@
        } else {
            ""@
        }),
{
    let mut out = to_chars(
        if same_text(name, current) {
            "* "
        } else {
            "  "
        },
    );
    extend_chars(&mut out, &pad_chars(name, 16));
    extend_chars(&mut out, &to_chars(" "));
    extend_chars(&mut out, &pad_chars(about, 40));
    extend_chars(&mut out, &to_chars(" "));
    extend_chars(
        &mut out,
        &to_chars(
            if installed {
                "installed"
            } else {
                ""
            },
        ),
    );
    from_chars(&out)
}

// ---------------------------------------------------------------------------
// The typing test
// ---------------------------------------------------------------------------

/// What the typing test says, given what was sent, what arrived, and what went wrong, if
/// anything did.
pub fn typing_verdict(sent: &str, received: &str, error: Option<&str>) -> (r: String)
    ensures
        r@ == match error {
            Some(e) => "typer error: "@ + e@,
            None => if sent@ == received@ {
                "OK: typing works"@
            } else {
                "MISMATCH: keys were sent but did not all arrive"@
            },
        },
{
    match error {
        Some(e) => concat("typer error: ", e),
        None => if same_text(sent, received) {
            "OK: typing works".to_owned()
        } else {
            "MISMATCH: keys were sent but did not all arrive".to_owned()
        },
    }
}

// ---------------------------------------------------------------------------
// Doctor
// ---------------------------------------------------------------------------

/// What was found out about the machine.
pub struct Findings {
    pub config_path: String,
    pub wayland: bool,
    pub layer_shell: bool,
    /// Why the virtual keyboard cannot be opened, if it cannot.
    pub uinput_error: Option<String>,
    pub keyboards: usize,
    pub audio_host: String,
    pub mics: Vec<MicInfo>,
    pub model_path: String,
    pub model_exists: bool,
    pub tts_name: String,
}

pub open spec fn mark(good: bool) -> Seq<char> {
    if good {
        "[ok  ] "@
    } else {
        "[FIX ] "@
    }
}

fn marked(good: bool, what: &str) -> (r: String)
    ensures
        r@ == mark(good) + what@,
{
    concat(
        if good {
            "[ok  ] "
        } else {
            "[FIX ] "
        },
        what,
    )
}

/// A finding, with what to do about it where it is not good.
pub open spec fn finding(good: bool, what: Seq<char>, advice: Seq<char>) -> Seq<char> {
    if good {
        mark(good) + what
    } else {
        mark(good) + what + " — "@ + advice
    }
}

fn find(good: bool, what: &str, advice: &str) -> (r: String)
    ensures
        r@ == finding(good, what@, advice@),
{
    let mut line = marked(good, what);
    if !good {
        append(&mut line, " — ");
        append(&mut line, advice);
    }
    line
}

pub open spec fn mic_lines(mics: Seq<audio::Mic>) -> Seq<Seq<char>> {
    mics.map_values(
        |m: audio::Mic|
            "         - "@ + m.display_text() + if m.is_default {
                " [default]"@
            } else {
                ""@
            },
    )
}

/// What is said of a shortcut that is not understood.
pub open spec fn shortcut_line(label: Seq<char>, spec: Seq<char>) -> Seq<Seq<char>> {
    match hotkey::problem(spec) {
        Some(why) => seq!["[FIX ] "@ + label + " shortcut: "@ + why],
        None => Seq::empty(),
    }
}

pub open spec fn uinput_line(error: Option<String>) -> Seq<char> {
    match error {
        Some(e) => finding(
            false,
            "typing into apps (/dev/uinput)"@,
            e@ + "; run `imlazy setup` in the RavenVoice source folder"@,
        ),
        None => mark(true) + "typing into apps (/dev/uinput)"@,
    }
}

pub open spec fn host_line(host: Seq<char>, count: nat) -> Seq<char> {
    mark(count > 0) + "audio host "@ + host + ", "@ + text::decimal(count) + " microphone(s)"@
}

/// What is said of the desktop, the keyboards and the sound server.
pub open spec fn surroundings(f: Findings) -> Seq<Seq<char>> {
    seq![
        "config:  "@ + f.config_path@,
        mark(f.wayland) + "Wayland session"@,
        finding(
            f.layer_shell,
            "floating overlay (layer-shell)"@,
            "built without the layer-shell feature"@,
        ),
        uinput_line(f.uinput_error),
        finding(
            f.keyboards > 0,
            "global shortcuts: "@ + text::decimal(f.keyboards as nat) + " keyboard(s) readable"@,
            "add yourself to the `input` group"@,
        ),
        host_line(f.audio_host@, f.mics@.len()),
    ]
}

/// What is said of the shortcuts that are not understood.
pub open spec fn shortcut_lines(hotkeys: HotkeyConfig) -> Seq<Seq<char>> {
    shortcut_line("toggle"@, hotkeys.toggle@) + shortcut_line(
        "push to talk"@,
        hotkeys.push_to_talk@,
    ) + shortcut_line("speak last"@, hotkeys.speak_last@) + shortcut_line(
        "stop speaking"@,
        hotkeys.stop_speaking@,
    )
}

/// What `ravenvoice doctor` prints.
pub open spec fn doctor_text(f: Findings, hotkeys: HotkeyConfig) -> Seq<Seq<char>> {
    (surroundings(f) + mic_lines(audio::mics(f.mics@))).push(
        finding(
            f.model_exists,
            "Whisper model "@ + f.model_path@,
            "`ravenvoice download-model` (or it downloads on first run)"@,
        ),
    ).push(
        mark(!"unavailable"@.is_prefix_of(f.tts_name@)) + "read aloud: "@ + f.tts_name@,
    ) + shortcut_lines(hotkeys)
}

fn push_mics(out: &mut Vec<String>, mics: &[MicInfo])
    ensures
        lines(final(out)@) == lines(old(out)@) + mic_lines(audio::mics(mics@)),
{
    let ghost head = lines(out@);
    let ghost ms = audio::mics(mics@);
    let ghost all = mic_lines(ms);
    let mut i: usize = 0;
    assert(head + all.take(0) =~= head);
    while i < mics.len()
        invariant
            i <= mics.len(),
            ms == audio::mics(mics@),
            all == mic_lines(ms),
            lines(out@) == head + all.take(i as int),
        decreases mics.len() - i,
    {
        let m = &mics[i];
        assert(ms[i as int] == m@);
        let line = concat3(
            "         - ",
            &m.display(),
            if m.is_default {
                " [default]"
            } else {
                ""
            },
        );
        assert(line@ == all[i as int]);
        push_line(out, line);
        assert(head + all.take(i + 1) =~= (head + all.take(i as int)).push(all[i as int]));
        i += 1;
    }
    assert(all.take(i as int) =~= all);
}

fn push_shortcut(out: &mut Vec<String>, label: &str, spec: &str)
    ensures
        lines(final(out)@) == lines(old(out)@) + shortcut_line(label@, spec@),
{
    let ghost head = lines(out@);
    if let Some(why) = hotkey::check(spec) {
        let mut line = concat3("[FIX ] ", label, " shortcut: ");
        append(&mut line, &why);
        push_line(out, line);
        assert(head.push(line@) =~= head + shortcut_line(label@, spec@));
    } else {
        assert(head =~= head + shortcut_line(label@, spec@));
    }
}

fn describe_uinput(error: &Option<String>) -> (r: String)
    ensures
        r@ == uinput_line(*error),
{
    match error {
        Some(e) => find(
            false,
            "typing into apps (/dev/uinput)",
            &concat(e, "; run `imlazy setup` in the RavenVoice source folder"),
        ),
        None => marked(true, "typing into apps (/dev/uinput)"),
    }
}

fn describe_host(host: &str, count: usize) -> (r: String)
    ensures
        r@ == host_line(host@, count as nat),
{
    let mut line = marked(count > 0, "audio host ");
    append(&mut line, host);
    append(&mut line, ", ");
    append(&mut line, &from_chars(&numeral_chars(count as u64, 10)));
    append(&mut line, " microphone(s)");
    line
}

fn describe_surroundings(f: &Findings) -> (r: Vec<String>)
    ensures
        lines(r@) == surroundings(*f),
{
    let mut out: Vec<String> = Vec::new();
    assert(lines(out@) =~= Seq::empty());
    push_line(&mut out, concat("config:  ", &f.config_path));
    push_line(&mut out, marked(f.wayland, "Wayland session"));
    push_line(
        &mut out,
        find(
            f.layer_shell,
            "floating overlay (layer-shell)",
            "built without the layer-shell feature",
        ),
    );
    push_line(&mut out, describe_uinput(&f.uinput_error));
    push_line(
        &mut out,
        find(
            f.keyboards > 0,
            &concat3(
                "global shortcuts: ",
                &from_chars(&numeral_chars(f.keyboards as u64, 10)),
                " keyboard(s) readable",
            ),
            "add yourself to the `input` group",
        ),
    );
    push_line(&mut out, describe_host(&f.audio_host, f.mics.len()));
    out
}

fn push_shortcuts(out: &mut Vec<String>, hotkeys: &HotkeyConfig)
    ensures
        lines(final(out)@) == lines(old(out)@) + shortcut_lines(*hotkeys),
{
    let ghost head = lines(out@);
    push_shortcut(out, "toggle", &hotkeys.toggle);
    push_shortcut(out, "push to talk", &hotkeys.push_to_talk);
    push_shortcut(out, "speak last", &hotkeys.speak_last);
    push_shortcut(out, "stop speaking", &hotkeys.stop_speaking);
    assert(lines(out@) =~= head + shortcut_lines(*hotkeys));
}

/// What `ravenvoice doctor` prints: whether everything that is needed is in place.
pub fn doctor_report(f: &Findings, hotkeys: &HotkeyConfig) -> (r: Vec<String>)
    ensures
        lines(r@) == doctor_text(*f, *hotkeys),
{
    let mut out = describe_surroundings(f);
    push_mics(&mut out, &f.mics);
    push_line(
        &mut out,
        find(
            f.model_exists,
            &concat("Whisper model ", &f.model_path),
            "`ravenvoice download-model` (or it downloads on first run)",
        ),
    );
    let available = !starts_with(&to_chars(&f.tts_name), &to_chars("unavailable"));
    let mut voice = marked(available, "read aloud: ");
    append(&mut voice, &f.tts_name);
    push_line(&mut out, voice);
    push_shortcuts(&mut out, hotkeys);
    out
}

// ---------------------------------------------------------------------------
// Laws
// ---------------------------------------------------------------------------

/// A compositor's socket is told by how its name starts, and its lock file by how it ends.
pub proof fn law_displays_are_told_by_their_name(name: Seq<char>)
    ensures
        is_display(name) <==> name.len() >= 8 && name.take(8) == "wayland-"@ && !(name.len() >= 5
            && name.skip(name.len() - 5) == ".lock"@),
{
    reveal_strlit("wayland-");
    reveal_strlit(".lock");
    if name.len() >= 8 {
        assert(name.take(8) =~= name.subrange(0, 8));
    }
    if name.len() >= 5 {
        assert(name.skip(name.len() - 5) =~= name.subrange(name.len() - 5, name.len() as int));
    }
}

/// Every microphone is listed with its id, in the order given; the chosen one has a star and the
/// system's a remark. Where there is none, that is said, and how to choose one is said last.
pub proof fn law_every_microphone_is_listed(
    mics: Seq<audio::Mic>,
    chosen: Option<Seq<char>>,
    config_path: Seq<char>,
    i: int,
)
    ensures
        ({
            let t = devices_text(mics, chosen, config_path);
            let how = "\nTo pin one, set `device = \"<id>\"` under [audio] in "@ + config_path;
            &&& mics.len() == 0 ==> t == seq!["No microphones found."@, how]
            &&& mics.len() > 0 ==> t.len() == mics.len() + 1 && t.last() == how
            &&& 0 <= i < mics.len() ==> {
                let m = mics[i];
                let end = "\n    id: "@ + m.id;
                let starred = chosen is Some && chosen->0 == m.id;
                &&& starred && m.is_default ==> t[i] == "* "@ + m.display_text()
                    + " [system default]"@ + end
                &&& starred && !m.is_default ==> t[i] == "* "@ + m.display_text() + end
                &&& !starred && m.is_default ==> t[i] == "  "@ + m.display_text()
                    + " [system default]"@ + end
                &&& !starred && !m.is_default ==> t[i] == "  "@ + m.display_text() + end
            }
        }),
{
    reveal_strlit("");
    let t = devices_text(mics, chosen, config_path);
    let how = "\nTo pin one, set `device = \"<id>\"` under [audio] in "@ + config_path;
    if mics.len() == 0 {
        assert(t =~= seq!["No microphones found."@, how]);
    }
    if 0 <= i < mics.len() {
        let m = mics[i];
        assert(t[i] == device_text(m, chosen));
        let mark = if chosen == Some(m.id) {
            "* "@
        } else {
            "  "@
        };
        let end = "\n    id: "@ + m.id;
        assert(mark + m.display_text() + " [system default]"@ + "\n    id: "@ + m.id =~= mark
            + m.display_text() + " [system default]"@ + end);
        assert(mark + m.display_text() + ""@ + "\n    id: "@ + m.id =~= mark + m.display_text()
            + end);
    }
}

/// A text is made up with spaces to the width, and never cut.
pub proof fn law_texts_are_made_up_to_a_width(s: Seq<char>, width: nat, i: int)
    ensures
        s.len() >= width ==> padded(s, width) == s,
        s.len() < width ==> padded(s, width).len() == width,
        padded(s, width).take(s.len() as int) == s,
        s.len() <= i < padded(s, width).len() ==> padded(s, width)[i] == ' ',
{
    if s.len() >= width {
        assert(padded(s, width) =~= s);
    }
    assert(padded(s, width).take(s.len() as int) =~= s);
}

/// What is good is marked so; what is not says what to do about it.
pub proof fn law_findings_say_what_to_do(what: Seq<char>, advice: Seq<char>, why: String)
    ensures
        finding(true, what, advice) == "[ok  ] "@ + what,
        finding(false, what, advice) == "[FIX ] "@ + what + " — "@ + advice,
        uinput_line(None) == "[ok  ] "@ + "typing into apps (/dev/uinput)"@,
        uinput_line(Some(why)) == "[FIX ] "@ + "typing into apps (/dev/uinput)"@ + " — "@ + (why@
            + "; run `imlazy setup` in the RavenVoice source folder"@),
{
}

/// The doctor looks at everything, in this order: the settings, the session, the overlay, the
/// virtual keyboard, the keyboards, the sound server and each of its microphones, the model, the
/// voice, and the shortcuts that are not understood.
pub proof fn law_the_doctor_looks_at_everything(f: Findings, hotkeys: HotkeyConfig, i: int)
    ensures
        ({
            let t = doctor_text(f, hotkeys);
            let n = f.mics@.len() as int;
            let ok = "[ok  ] "@;
            let fix = "[FIX ] "@;
            let overlay = "floating overlay (layer-shell)"@;
            let keys = "global shortcuts: "@ + text::decimal(f.keyboards as nat)
                + " keyboard(s) readable"@;
            let sound = "audio host "@ + f.audio_host@ + ", "@ + text::decimal(f.mics@.len())
                + " microphone(s)"@;
            let model = "Whisper model "@ + f.model_path@;
            let voice = f.tts_name@.len() >= 11 && f.tts_name@.take(11) == "unavailable"@;
            &&& t.len() == 8 + n + shortcut_lines(hotkeys).len()
            &&& t[0] == "config:  "@ + f.config_path@
            &&& t[1] == (if f.wayland {
                ok
            } else {
                fix
            }) + "Wayland session"@
            &&& f.layer_shell ==> t[2] == ok + overlay
            &&& !f.layer_shell ==> t[2] == fix + overlay + " — "@
                + "built without the layer-shell feature"@
            &&& t[3] == uinput_line(f.uinput_error)
            &&& f.keyboards > 0 ==> t[4] == ok + keys
            &&& f.keyboards == 0 ==> t[4] == fix + keys + " — "@
                + "add yourself to the `input` group"@
            &&& n > 0 ==> t[5] =~= ok + sound
            &&& n == 0 ==> t[5] =~= fix + sound
            &&& 0 <= i < n && f.mics@[i].is_default ==> t[6 + i] == "         - "@
                + f.mics@[i]@.display_text() + " [default]"@
            &&& 0 <= i < n && !f.mics@[i].is_default ==> t[6 + i] =~= "         - "@
                + f.mics@[i]@.display_text()
            &&& f.model_exists ==> t[6 + n] == ok + model
            &&& !f.model_exists ==> t[6 + n] == fix + model + " — "@
                + "`ravenvoice download-model` (or it downloads on first run)"@
            &&& t[7 + n] == (if voice {
                fix
            } else {
                ok
            }) + "read aloud: "@ + f.tts_name@
            &&& t.skip(8 + n) == shortcut_lines(hotkeys)
        }),
{
    reveal_strlit("");
    reveal_strlit("unavailable");
    let t = doctor_text(f, hotkeys);
    let ms = audio::mics(f.mics@);
    let n = f.mics@.len() as int;
    let head = surroundings(f);
    assert(head.len() == 6);
    assert(mic_lines(ms).len() == n);
    assert(t.skip(8 + n) =~= shortcut_lines(hotkeys));
    assert(t[5] == head[5]);
    let name = f.tts_name@;
    if name.len() >= 11 {
        assert(name.take(11) =~= name.subrange(0, 11));
    }
    if 0 <= i < n {
        assert(ms[i] == f.mics@[i]@);
        assert(t[6 + i] == mic_lines(ms)[i]);
    }
}

/// Every shortcut that is not understood is named, with what is wrong with it, and no other is.
pub proof fn law_misread_shortcuts_are_named(label: Seq<char>, spec: Seq<char>, h: HotkeyConfig)
    ensures
        hotkey::problem(spec) is None ==> shortcut_line(label, spec).len() == 0,
        hotkey::problem(spec) is Some ==> shortcut_line(label, spec) == seq![
            "[FIX ] "@ + label + " shortcut: "@ + hotkey::problem(spec)->0,
        ],
        shortcut_lines(h) == shortcut_line("toggle"@, h.toggle@) + shortcut_line(
            "push to talk"@,
            h.push_to_talk@,
        ) + shortcut_line("speak last"@, h.speak_last@) + shortcut_line(
            "stop speaking"@,
            h.stop_speaking@,
        ),
{
}

/// The typing test passes exactly when everything that was sent has arrived.
pub proof fn law_typing_works_when_everything_arrives(sent: &str, got: &str, e: &str, r: String)
    ensures
        call_ensures(typing_verdict, (sent, got, None), r) && sent@ == got@ ==> r@
            == "OK: typing works"@,
        call_ensures(typing_verdict, (sent, got, None), r) && sent@ != got@ ==> r@
            == "MISMATCH: keys were sent but did not all arrive"@,
        call_ensures(typing_verdict, (sent, got, Some(e)), r) ==> r@ == "typer error: "@ + e@,
{
}

/// A model's line has its name from the third column on and what is said of it from the
/// twentieth, a star in front of the one that is used, and a remark behind one that is there.
pub proof fn law_models_are_listed_in_columns(
    name: &str,
    about: &str,
    current: &str,
    installed: bool,
    r: String,
)
    requires
        call_ensures(model_line, (name, about, current, installed), r),
        name@.len() <= 16,
        about@.len() <= 40,
    ensures
        r@.take(2) == if name@ == current@ {
            "* "@
        } else {
            "  "@
        },
        r@.subrange(2, 2 + name@.len() as int) == name@,
        r@.subrange(19, 19 + about@.len() as int) == about@,
        r@.skip(60) == if installed {
            "installed"@
        } else {
            ""@
        },
        forall|i: int|
            (2 + name@.len() <= i < 19 || 19 + about@.len() <= i < 60) ==> #[trigger] r@[i] == ' ',
{
    reveal_strlit("* ");
    reveal_strlit("  ");
    reveal_strlit(" ");
    let mark = if name@ == current@ {
        "* "@
    } else {
        "  "@
    };
    let end = if installed {
        "installed"@
    } else {
        ""@
    };
    assert(r@ == mark + padded(name@, 16) + " "@ + padded(about@, 40) + " "@ + end);
    assert(r@.take(2) =~= mark);
    assert(r@.subrange(2, 2 + name@.len() as int) =~= name@);
    assert(r@.subrange(19, 19 + about@.len() as int) =~= about@);
    assert(r@.skip(60) =~= end);
}

} // verus!
