//! Microphones: which there are, what kind they are, in which order they are offered, and in
//! which format they are opened.

use vstd::prelude::*;

use crate::text;
use crate::text::{ascii_lower_chars, ends_with, extend_chars, from_chars, has_text, same_text,
    starts_with, to_chars};

verus! {

/// Whisper wants 16 kHz mono.
pub const SAMPLE_RATE: u32 = 16_000;

/// A number kept between two bounds.
pub open spec fn clamped(x: int, low: int, high: int) -> int {
    if x < low {
        low
    } else if x > high {
        high
    } else {
        x
    }
}

#[derive(Debug, Clone, Copy, PartialEq, Eq, Structural)]
pub enum MicKind {
    BuiltIn,
    Usb,
    Bluetooth,
    Other,
}

impl MicKind {
    pub open spec fn label_text(self) -> Seq<char> {
        match self {
            MicKind::BuiltIn => "built-in"@,
            MicKind::Usb => "USB"@,
            MicKind::Bluetooth => "Bluetooth"@,
            MicKind::Other => "external"@,
        }
    }

    pub fn label(self) -> (r: &'static str)
        ensures
            r@ == self.label_text(),
    {
        match self {
            MicKind::BuiltIn => "built-in",
            MicKind::Usb => "USB",
            MicKind::Bluetooth => "Bluetooth",
            MicKind::Other => "external",
        }
    }
}

#[derive(Debug, Clone)]
pub struct MicInfo {
    /// Stable id (`pulseaudio:alsa_input.usb-...`), what the config stores.
    pub id: String,
    pub name: String,
    pub kind: MicKind,
    pub is_default: bool,
}

/// A microphone, as contracts speak of it.
pub struct Mic {
    pub id: Seq<char>,
    pub name: Seq<char>,
    pub kind: MicKind,
    pub is_default: bool,
}

impl View for MicInfo {
    type V = Mic;

    open spec fn view(&self) -> Mic {
        Mic { id: self.id@, name: self.name@, kind: self.kind, is_default: self.is_default }
    }
}

pub open spec fn mics(list: Seq<MicInfo>) -> Seq<Mic> {
    list.map_values(|m: MicInfo| m@)
}

impl Mic {
    pub open spec fn display_text(self) -> Seq<char> {
        self.name + " ("@ + self.kind.label_text() + ")"@
    }
}

impl MicInfo {
    pub fn display(&self) -> (r: String)
        ensures
            r@ == self@.display_text(),
    {
        let mut out = to_chars(&self.name);
        extend_chars(&mut out, &to_chars(" ("));
        extend_chars(&mut out, &to_chars(self.kind.label()));
        extend_chars(&mut out, &to_chars(")"));
        from_chars(&out)
    }

    /// Another of the same.
    pub fn copy(&self) -> (r: MicInfo)
        ensures
            r@ == self@,
    {
        MicInfo {
            id: self.id.clone(),
            name: self.name.clone(),
            kind: self.kind,
            is_default: self.is_default,
        }
    }

    /// Whether two are the same in everything.
    pub fn same(&self, other: &MicInfo) -> (r: bool)
        ensures
            r == (self@ == other@),
    {
        same_text(&self.id, &other.id) && same_text(&self.name, &other.name) && self.kind
            == other.kind && self.is_default == other.is_default
    }
}

pub fn copy_mics(list: &[MicInfo]) -> (r: Vec<MicInfo>)
    ensures
        mics(r@) == mics(list@),
{
    let mut out: Vec<MicInfo> = Vec::new();
    let mut i: usize = 0;
    while i < list.len()
        invariant
            i <= list.len(),
            mics(out@) == mics(list@.take(i as int)),
        decreases list.len() - i,
    {
        let ghost before = out@;
        out.push(list[i].copy());
        assert(mics(out@) =~= mics(before).push(list@[i as int]@));
        assert(mics(list@.take(i + 1)) =~= mics(list@.take(i as int)).push(list@[i as int]@));
        i += 1;
    }
    assert(list@.take(i as int) =~= list@);
    out
}

pub fn same_mics(a: &[MicInfo], b: &[MicInfo]) -> (r: bool)
    ensures
        r == (mics(a@) == mics(b@)),
{
    if a.len() != b.len() {
        assert(mics(a@).len() != mics(b@).len());
        return false;
    }
    let mut i: usize = 0;
    while i < a.len()
        invariant
            i <= a.len(),
            a.len() == b.len(),
            forall|j: int| 0 <= j < i ==> #[trigger] mics(a@)[j] == mics(b@)[j],
        decreases a.len() - i,
    {
        if !a[i].same(&b[i]) {
            assert(mics(a@)[i as int] != mics(b@)[i as int]);
            return false;
        }
        i += 1;
    }
    assert(mics(a@) =~= mics(b@));
    true
}

// ---------------------------------------------------------------------------
// What kind of microphone
// ---------------------------------------------------------------------------

pub open spec fn kind_of(id: Seq<char>, name: Seq<char>) -> MicKind {
    let i = text::ascii_lowercased(id);
    let n = text::ascii_lowercased(name);
    if text::contains(i, "bluez"@) || text::contains(n, "bluetooth"@) {
        MicKind::Bluetooth
    } else if text::contains(i, ".usb-"@) || text::contains(i, "usb"@) {
        MicKind::Usb
    } else if text::contains(i, ".pci-"@) || text::contains(i, "platform-"@) || text::contains(
        n,
        "built-in"@,
    ) {
        MicKind::BuiltIn
    } else {
        MicKind::Other
    }
}

/// Guesses what kind of microphone this is from its sound-server name.
pub fn classify(id: &str, name: &str) -> (r: MicKind)
    ensures
        r == kind_of(id@, name@),
{
    let i = ascii_lower_chars(&to_chars(id));
    let n = ascii_lower_chars(&to_chars(name));
    if has_text(&i, &to_chars("bluez")) || has_text(&n, &to_chars("bluetooth")) {
        MicKind::Bluetooth
    } else if has_text(&i, &to_chars(".usb-")) || has_text(&i, &to_chars("usb")) {
        MicKind::Usb
    } else if has_text(&i, &to_chars(".pci-")) || has_text(&i, &to_chars("platform-")) || has_text(
        &n,
        &to_chars("built-in"),
    ) {
        MicKind::BuiltIn
    } else {
        MicKind::Other
    }
}

// ---------------------------------------------------------------------------
// The list of microphones
// ---------------------------------------------------------------------------

/// A capture source that the sound server reports.
pub struct Source {
    pub id: String,
    pub name: String,
}

/// A source that is no microphone: a loopback, or one of the many PCMs that plain ALSA lists for
/// its plugins, other than those that people pick.
pub open spec fn is_noise_source(id: Seq<char>, name: Seq<char>) -> bool {
    ||| ".monitor"@.is_suffix_of(id)
    ||| "Monitor of"@.is_prefix_of(name)
    ||| {
        &&& "alsa:"@.is_prefix_of(id)
        &&& !text::contains(id, "sysdefault"@)
        &&& !":default"@.is_suffix_of(id)
        &&& !text::contains(id, "pipewire"@)
    }
}

pub open spec fn mic_of(s: Source, default_id: Option<Seq<char>>) -> Mic {
    Mic {
        id: s.id@,
        name: s.name@,
        kind: kind_of(s.id@, s.name@),
        is_default: default_id == Some(s.id@),
    }
}

/// The microphones among the sources, in the order of the sources.
pub open spec fn found(sources: Seq<Source>, default_id: Option<Seq<char>>) -> Seq<Mic>
    decreases sources.len(),
{
    if sources.len() == 0 {
        Seq::empty()
    } else {
        let before = found(sources.drop_last(), default_id);
        let s = sources.last();
        if is_noise_source(s.id@, s.name@) {
            before
        } else {
            before.push(mic_of(s, default_id))
        }
    }
}

/// The order of texts: by code points, a text after its own beginnings.
pub open spec fn text_before(a: Seq<char>, b: Seq<char>) -> bool
    decreases a.len(),
{
    if b.len() == 0 {
        false
    } else if a.len() == 0 {
        true
    } else if a[0] != b[0] {
        a[0] < b[0]
    } else {
        text_before(a.skip(1), b.skip(1))
    }
}

/// The default microphone comes first, the others by name.
pub open spec fn mic_before(a: Mic, b: Mic) -> bool {
    if a.is_default != b.is_default {
        a.is_default
    } else {
        text_before(a.name, b.name)
    }
}

/// A list in order with one more microphone at its place, behind those that it does not precede.
pub open spec fn placed(list: Seq<Mic>, m: Mic) -> Seq<Mic>
    decreases list.len(),
{
    if list.len() == 0 || !mic_before(m, list.last()) {
        list.push(m)
    } else {
        placed(list.drop_last(), m).push(list.last())
    }
}

pub open spec fn arranged(list: Seq<Mic>) -> Seq<Mic>
    decreases list.len(),
{
    if list.len() == 0 {
        Seq::empty()
    } else {
        placed(arranged(list.drop_last()), list.last())
    }
}

/// Whether a text comes before another.
pub fn is_text_before(a: &str, b: &str) -> (r: bool)
    ensures
        r == text_before(a@, b@),
{
    let x = to_chars(a);
    let y = to_chars(b);
    let mut i: usize = 0;
    assert(x@.skip(0) =~= x@ && y@.skip(0) =~= y@);
    while i < x.len() && i < y.len()
        invariant
            i <= x.len(),
            i <= y.len(),
            x@ == a@,
            y@ == b@,
            text_before(x@, y@) == text_before(x@.skip(i as int), y@.skip(i as int)),
        decreases x.len() - i,
    {
        assert(x@.skip(i as int).skip(1) =~= x@.skip(i + 1));
        assert(y@.skip(i as int).skip(1) =~= y@.skip(i + 1));
        if x[i] != y[i] {
            return x[i] < y[i];
        }
        i += 1;
    }
    i < y.len()
}

fn is_before(a: &MicInfo, b: &MicInfo) -> (r: bool)
    ensures
        r == mic_before(a@, b@),
{
    if a.is_default != b.is_default {
        a.is_default
    } else {
        is_text_before(&a.name, &b.name)
    }
}

proof fn lemma_placed(list: Seq<Mic>, m: Mic, i: int)
    requires
        0 <= i <= list.len(),
        forall|j: int| i <= j < list.len() ==> mic_before(m, #[trigger] list[j]),
        i == 0 || !mic_before(m, list[i - 1]),
    ensures
        placed(list, m) == list.insert(i, m),
    decreases list.len(),
{
    if i == list.len() {
        assert(list.insert(i, m) =~= list.push(m));
    } else {
        lemma_placed(list.drop_last(), m, i);
        assert(list.insert(i, m) =~= list.drop_last().insert(i, m).push(list.last()));
    }
}

fn place(list: &mut Vec<MicInfo>, m: MicInfo)
    ensures
        mics(final(list)@) == placed(mics(old(list)@), m@),
{
    let ghost before = list@;
    let mut i: usize = list.len();
    while i > 0 && is_before(&m, &list[i - 1])
        invariant
            list@ == before,
            i <= list.len(),
            forall|j: int| i <= j < list.len() ==> mic_before(m@, #[trigger] mics(list@)[j]),
        decreases i,
    {
        i -= 1;
    }
    proof {
        assert(i > 0 ==> mics(before)[i - 1] == before[i - 1]@);
        lemma_placed(mics(before), m@, i as int);
    }
    list.insert(i, m);
    assert(mics(list@) =~= mics(before).insert(i as int, m@));
}

/// Every capture source except loopbacks and the PCMs that plain ALSA lists for its plugins, other
/// than those that people pick; the system default first.
pub fn list_inputs(sources: &[Source], default_id: Option<&str>) -> (r: Vec<MicInfo>)
    ensures
        mics(r@) == arranged(
            found(
                sources@,
                match default_id {
                    Some(d) => Some(d@),
                    None => None,
                },
            ),
        ),
{
    let ghost d = match default_id {
        Some(d) => Some(d@),
        None => None,
    };
    let mut out: Vec<MicInfo> = Vec::new();
    let mut i: usize = 0;
    assert(mics(out@) =~= arranged(found(sources@.take(0), d)));
    while i < sources.len()
        invariant
            i <= sources.len(),
            d == (match default_id {
                Some(d) => Some(d@),
                None => None,
            }),
            mics(out@) == arranged(found(sources@.take(i as int), d)),
        decreases sources.len() - i,
    {
        let ghost upto = sources@.take(i + 1);
        assert(upto.drop_last() =~= sources@.take(i as int));
        let s = &sources[i];
        let id = to_chars(&s.id);
        let name = to_chars(&s.name);
        let loopback = ends_with(&id, &to_chars(".monitor")) || starts_with(
            &name,
            &to_chars("Monitor of"),
        );
        let plugin = starts_with(&id, &to_chars("alsa:")) && !(has_text(
            &id,
            &to_chars("sysdefault"),
        ) || ends_with(&id, &to_chars(":default")) || has_text(&id, &to_chars("pipewire")));
        if !loopback && !plugin {
            let is_default = match default_id {
                Some(d) => same_text(d, &s.id),
                None => false,
            };
            let m = MicInfo {
                id: s.id.clone(),
                name: s.name.clone(),
                kind: classify(&s.id, &s.name),
                is_default,
            };
            assert(m@ == mic_of(*s, d));
            proof {
                let f = found(sources@.take(i as int), d);
                assert(f.push(m@).drop_last() =~= f);
            }
            place(&mut out, m);
        }
        i += 1;
    }
    assert(sources@.take(i as int) =~= sources@);
    out
}

// ---------------------------------------------------------------------------
// The format to open a device in
// ---------------------------------------------------------------------------

#[derive(Debug, Clone, Copy, PartialEq, Eq, Structural)]
pub enum SampleFormat {
    F32,
    I16,
    I32,
    U16,
    Other,
}

/// A range of formats that a device supports.
#[derive(Debug, Clone, Copy)]
pub struct StreamRange {
    pub format: SampleFormat,
    pub channels: u16,
    pub min_rate: u32,
    pub max_rate: u32,
}

impl StreamRange {
    pub open spec fn fits(self, format: SampleFormat, channels: u16, rate: u32) -> bool {
        &&& self.format == format
        &&& self.channels == channels
        &&& self.min_rate <= rate <= self.max_rate
    }
}

/// The first range that fits.
pub open spec fn is_first_fit(
    r: Option<usize>,
    ranges: Seq<StreamRange>,
    format: SampleFormat,
    channels: u16,
    rate: u32,
) -> bool {
    match r {
        Some(k) => {
            &&& k < ranges.len()
            &&& ranges[k as int].fits(format, channels, rate)
            &&& forall|j: int| 0 <= j < k ==> !(#[trigger] ranges[j]).fits(format, channels, rate)
        },
        None => no_fit(ranges, format, channels, rate),
    }
}

pub open spec fn no_fit(
    ranges: Seq<StreamRange>,
    format: SampleFormat,
    channels: u16,
    rate: u32,
) -> bool {
    forall|j: int|
        0 <= j < ranges.len() ==> !(#[trigger] ranges[j]).fits(format, channels, rate)
}

/// The first range with this format and these channels that covers the rate.
pub fn first_fit(ranges: &[StreamRange], format: SampleFormat, channels: u16, rate: u32) -> (r:
    Option<usize>)
    ensures
        is_first_fit(r, ranges@, format, channels, rate),
{
    let mut i: usize = 0;
    while i < ranges.len()
        invariant
            i <= ranges.len(),
            forall|j: int| 0 <= j < i ==> !(#[trigger] ranges@[j]).fits(format, channels, rate),
        decreases ranges.len() - i,
    {
        let c = ranges[i];
        if c.format == format && c.channels == channels && c.min_rate <= rate && c.max_rate
            >= rate {
            return Some(i);
        }
        i += 1;
    }
    None
}

/// The formats that a microphone is opened in by preference, best first.
pub open spec fn preference(n: int) -> (SampleFormat, u16) {
    if n == 0 {
        (SampleFormat::F32, 1)
    } else if n == 1 {
        (SampleFormat::F32, 2)
    } else if n == 2 {
        (SampleFormat::I16, 1)
    } else {
        (SampleFormat::I16, 2)
    }
}

/// The best preference that any of the ranges meets, if one does.
pub open spec fn is_best_preference(n: int, ranges: Seq<StreamRange>) -> bool {
    &&& 0 <= n < 4
    &&& !no_fit(ranges, preference(n).0, preference(n).1, SAMPLE_RATE)
    &&& forall|m: int|
        0 <= m < n ==> no_fit(ranges, (#[trigger] preference(m)).0, preference(m).1, SAMPLE_RATE)
}

/// Prefers 16 kHz mono straight from the sound server (no resampling on our side). `None` asks
/// for the device's default format, to be resampled.
pub fn pick_config(ranges: &[StreamRange]) -> (r: Option<usize>)
    ensures
        r is None <==> forall|n: int|
            0 <= n < 4 ==> no_fit(
                ranges@,
                (#[trigger] preference(n)).0,
                preference(n).1,
                SAMPLE_RATE,
            ),
        forall|n: int|
            is_best_preference(n, ranges@) ==> is_first_fit(
                r,
                ranges@,
                (#[trigger] preference(n)).0,
                preference(n).1,
                SAMPLE_RATE,
            ),
{
    let mut n: usize = 0;
    while n < 4
        invariant
            n <= 4,
            forall|m: int|
                0 <= m < n ==> no_fit(
                    ranges@,
                    (#[trigger] preference(m)).0,
                    preference(m).1,
                    SAMPLE_RATE,
                ),
        decreases 4 - n,
    {
        let format = if n < 2 {
            SampleFormat::F32
        } else {
            SampleFormat::I16
        };
        let channels: u16 = if n == 0 || n == 2 {
            1
        } else {
            2
        };
        assert(preference(n as int) == (format, channels));
        let found = first_fit(ranges, format, channels, SAMPLE_RATE);
        if found.is_some() {
            assert(!no_fit(ranges@, format, channels, SAMPLE_RATE));
            assert forall|m: int| is_best_preference(m, ranges@) implies m == n by {
                if m < n {
                    assert(no_fit(ranges@, preference(m).0, preference(m).1, SAMPLE_RATE));
                } else if m > n {
                    assert(no_fit(
                        ranges@,
                        preference(n as int).0,
                        preference(n as int).1,
                        SAMPLE_RATE,
                    ));
                }
            }
            return found;
        }
        n += 1;
    }
    None
}

/// Frames to buffer: about 30 ms, within what the device allows. Left at the default, PulseAudio
/// buffers about two seconds, which delays the start of dictation and clips the end of speech.
/// `None` leaves the default where the device does not say what it allows.
pub fn low_latency(rate: u32, allowed: Option<(u32, u32)>) -> (r: Option<u32>)
    requires
        rate * 30 <= u32::MAX,
        allowed matches Some(a) ==> a.0 <= a.1,
    ensures
        r == match allowed {
            Some(a) => Some(clamped(rate * 30 / 1000, a.0 as int, a.1 as int) as u32),
            None => None,
        },
{
    let frames: u32 = rate * 30 / 1000;
    match allowed {
        Some(a) => if frames < a.0 {
            Some(a.0)
        } else if frames > a.1 {
            Some(a.1)
        } else {
            Some(frames)
        },
        None => None,
    }
}

// ---------------------------------------------------------------------------
// Laws
// ---------------------------------------------------------------------------

pub proof fn lemma_text_before_transitive(a: Seq<char>, b: Seq<char>, c: Seq<char>)
    ensures
        !text_before(a, b) && !text_before(b, c) ==> !text_before(a, c),
    decreases a.len(),
{
    if a.len() > 0 && b.len() > 0 && c.len() > 0 {
        lemma_text_before_transitive(a.skip(1), b.skip(1), c.skip(1));
    }
}

pub proof fn lemma_text_before_asymmetric(a: Seq<char>, b: Seq<char>)
    ensures
        text_before(a, b) ==> !text_before(b, a),
    decreases a.len(),
{
    if a.len() > 0 && b.len() > 0 {
        lemma_text_before_asymmetric(a.skip(1), b.skip(1));
    }
}

/// No microphone comes behind one that it should precede.
pub open spec fn in_order(list: Seq<Mic>) -> bool {
    forall|i: int, j: int|
        0 <= i < j < list.len() ==> !mic_before(#[trigger] list[j], #[trigger] list[i])
}

proof fn lemma_placed_in_order(list: Seq<Mic>, m: Mic)
    requires
        in_order(list),
    ensures
        in_order(placed(list, m)),
        placed(list, m).to_multiset() == list.to_multiset().insert(m),
        placed(list, m).len() == list.len() + 1,
    decreases list.len(),
{
    broadcast use vstd::seq_lib::group_to_multiset_ensures;

    let r = placed(list, m);
    if list.len() == 0 || !mic_before(m, list.last()) {
        assert forall|i: int, j: int| 0 <= i < j < r.len() implies !mic_before(
            #[trigger] r[j],
            #[trigger] r[i],
        ) by {
            if j == r.len() - 1 {
                let last = list[list.len() - 1];
                assert(i < list.len() - 1 ==> !mic_before(last, list[i]));
                lemma_text_before_transitive(m.name, last.name, r[i].name);
            }
        }
    } else {
        let front = list.drop_last();
        assert(in_order(front));
        lemma_placed_in_order(front, m);
        let p = placed(front, m);
        assert(list =~= front.push(list.last()));
        lemma_text_before_asymmetric(m.name, list.last().name);
        assert forall|i: int, j: int| 0 <= i < j < r.len() implies !mic_before(
            #[trigger] r[j],
            #[trigger] r[i],
        ) by {
            if j == r.len() - 1 {
                assert(p.to_multiset().contains(p[i])) by {
                    assert(p.contains(p[i]));
                }
                if r[i] != m {
                    assert(front.to_multiset().contains(r[i]));
                    assert(front.contains(r[i]));
                    let k = choose|k: int| 0 <= k < front.len() && front[k] == r[i];
                    assert(!mic_before(list[list.len() - 1], list[k]));
                }
            }
        }
        assert(r.to_multiset() =~= list.to_multiset().insert(m));
    }
}

/// The list is in order, and holds what was found, each as often as it was found.
pub proof fn law_microphones_are_in_order(list: Seq<Mic>)
    ensures
        in_order(arranged(list)),
        arranged(list).to_multiset() == list.to_multiset(),
    decreases list.len(),
{
    broadcast use vstd::seq_lib::group_to_multiset_ensures;

    if list.len() == 0 {
        assert(list =~= Seq::empty());
    } else {
        law_microphones_are_in_order(list.drop_last());
        lemma_placed_in_order(arranged(list.drop_last()), list.last());
        assert(list =~= list.drop_last().push(list.last()));
    }
}

/// The microphones of one name, defaults or not, in the order in which they stand.
pub open spec fn named(list: Seq<Mic>, name: Seq<char>, is_default: bool) -> Seq<Mic>
    decreases list.len(),
{
    if list.len() == 0 {
        Seq::empty()
    } else {
        let before = named(list.drop_last(), name, is_default);
        if list.last().name == name && list.last().is_default == is_default {
            before.push(list.last())
        } else {
            before
        }
    }
}

proof fn lemma_named_push(list: Seq<Mic>, m: Mic, name: Seq<char>, is_default: bool)
    ensures
        named(list.push(m), name, is_default) == if m.name == name && m.is_default == is_default {
            named(list, name, is_default).push(m)
        } else {
            named(list, name, is_default)
        },
{
    assert(list.push(m).drop_last() =~= list);
}

pub proof fn lemma_text_not_before_itself(a: Seq<char>)
    ensures
        !text_before(a, a),
    decreases a.len(),
{
    if a.len() > 0 {
        lemma_text_not_before_itself(a.skip(1));
    }
}

proof fn lemma_placed_named(list: Seq<Mic>, m: Mic, name: Seq<char>, is_default: bool)
    ensures
        named(placed(list, m), name, is_default) == named(list.push(m), name, is_default),
    decreases list.len(),
{
    if list.len() > 0 && mic_before(m, list.last()) {
        lemma_text_not_before_itself(m.name);
        let front = list.drop_last();
        lemma_placed_named(front, m, name, is_default);
        lemma_named_push(placed(front, m), list.last(), name, is_default);
        lemma_named_push(front, m, name, is_default);
        lemma_named_push(list, m, name, is_default);
    }
}

/// Microphones of the same name keep the order in which they were found.
pub proof fn law_equal_microphones_keep_their_order(
    list: Seq<Mic>,
    name: Seq<char>,
    is_default: bool,
)
    ensures
        named(arranged(list), name, is_default) == named(list, name, is_default),
    decreases list.len(),
{
    if list.len() > 0 {
        let front = list.drop_last();
        law_equal_microphones_keep_their_order(front, name, is_default);
        lemma_placed_named(arranged(front), list.last(), name, is_default);
        lemma_named_push(arranged(front), list.last(), name, is_default);
    }
}

/// A text comes before another exactly when it is a beginning of it, or has the lesser character
/// where they first differ.
pub proof fn law_texts_are_ordered_by_their_first_difference(
    shared: Seq<char>,
    a: Seq<char>,
    b: Seq<char>,
)
    requires
        a.len() == 0 || b.len() == 0 || a[0] != b[0],
    ensures
        text_before(shared + a, shared + b) <==> b.len() > 0 && (a.len() == 0 || a[0] < b[0]),
    decreases shared.len(),
{
    if shared.len() == 0 {
        assert(shared + a =~= a);
        assert(shared + b =~= b);
    } else {
        law_texts_are_ordered_by_their_first_difference(shared.skip(1), a, b);
        assert((shared + a).skip(1) =~= shared.skip(1) + a);
        assert((shared + b).skip(1) =~= shared.skip(1) + b);
        assert((shared + a)[0] == shared[0] && (shared + b)[0] == shared[0]);
    }
}

/// The default microphone stands before every other; apart from that the names decide.
pub proof fn law_the_default_microphone_comes_first(a: Mic, b: Mic)
    ensures
        a.is_default && !b.is_default ==> mic_before(a, b) && !mic_before(b, a),
        a.is_default == b.is_default ==> (mic_before(a, b) <==> text_before(a.name, b.name)),
{
}

/// Every source that can be a microphone is in the list, with its own id and name and marked if it
/// is the system default; no other is, and none twice.
pub proof fn law_every_microphone_is_found(
    sources: Seq<Source>,
    s: Source,
    default_id: Option<Seq<char>>,
)
    ensures
        found(Seq::empty(), default_id).len() == 0,
        is_noise_source(s.id@, s.name@) ==> found(sources.push(s), default_id) == found(
            sources,
            default_id,
        ),
        !is_noise_source(s.id@, s.name@) ==> {
            let all = found(sources.push(s), default_id);
            let m = all.last();
            &&& all == found(sources, default_id).push(m)
            &&& m.id == s.id@ && m.name == s.name@ && m.kind == kind_of(s.id@, s.name@)
            &&& m.is_default <==> default_id is Some && default_id->0 == s.id@
        },
{
    assert(sources.push(s).drop_last() =~= sources);
}

/// Loopbacks are told by the end of their id or the start of their name, and ALSA's plugins by
/// their prefix, unless they are the system's own or PipeWire's; every other source is offered.
pub proof fn law_only_loopbacks_and_plugins_are_left_out(id: Seq<char>, name: Seq<char>)
    ensures
        ({
            let n = id.len();
            let loopback = n >= 8 && id.skip(n - 8) == ".monitor"@;
            let monitor = name.len() >= 10 && name.take(10) == "Monitor of"@;
            let alsa = n >= 5 && id.take(5) == "alsa:"@;
            let picked = text::contains(id, "sysdefault"@) || (n >= 8 && id.skip(n - 8)
                == ":default"@) || text::contains(id, "pipewire"@);
            is_noise_source(id, name) <==> loopback || monitor || (alsa && !picked)
        }),
{
    reveal_strlit(".monitor");
    reveal_strlit("Monitor of");
    reveal_strlit("alsa:");
    reveal_strlit(":default");
    let n = id.len();
    if n >= 8 {
        assert(id.skip(n - 8) =~= id.subrange(n - 8, n as int));
    }
    if n >= 5 {
        assert(id.take(5) =~= id.subrange(0, 5));
    }
    if name.len() >= 10 {
        assert(name.take(10) =~= name.subrange(0, 10));
    }
}

/// What kind a microphone is shows in its id or its name, in whatever case; Bluetooth decides
/// first, then USB, then what is built in.
pub proof fn law_kinds_show_in_the_name(id: Seq<char>, name: Seq<char>)
    ensures
        ({
            let i = text::ascii_lowercased(id);
            let n = text::ascii_lowercased(name);
            let bluetooth = text::contains(i, "bluez"@) || text::contains(n, "bluetooth"@);
            let usb = text::contains(i, "usb"@);
            let built_in = text::contains(i, ".pci-"@) || text::contains(i, "platform-"@)
                || text::contains(n, "built-in"@);
            &&& kind_of(id, name) is Bluetooth <==> bluetooth
            &&& kind_of(id, name) is Usb <==> !bluetooth && usb
            &&& kind_of(id, name) is BuiltIn <==> !bluetooth && !usb && built_in
            &&& kind_of(id, name) is Other <==> !bluetooth && !usb && !built_in
        }),
{
    reveal_strlit("usb");
    reveal_strlit(".usb-");
    let i = text::ascii_lowercased(id);
    if text::contains(i, ".usb-"@) {
        let k = choose|k: int| text::occurs_at(i, ".usb-"@, k);
        assert(i.subrange(k + 1, k + 4) =~= "usb"@) by {
            assert forall|j: int| 0 <= j < 3 implies i.subrange(k + 1, k + 4)[j] == "usb"@[j] by {
                assert(i.subrange(k, k + 5)[j + 1] == ".usb-"@[j + 1]);
            }
        }
        assert(text::occurs_at(i, "usb"@, k + 1));
    }
}

/// A microphone is shown by its name and its kind.
pub proof fn law_microphones_are_shown_by_name_and_kind(m: Mic)
    ensures
        m.kind is BuiltIn ==> m.display_text() == m.name + " (built-in)"@,
        m.kind is Usb ==> m.display_text() == m.name + " (USB)"@,
        m.kind is Bluetooth ==> m.display_text() == m.name + " (Bluetooth)"@,
        m.kind is Other ==> m.display_text() == m.name + " (external)"@,
{
    reveal_strlit(" (");
    reveal_strlit(")");
    reveal_strlit("built-in");
    reveal_strlit("USB");
    reveal_strlit("Bluetooth");
    reveal_strlit("external");
    reveal_strlit(" (built-in)");
    reveal_strlit(" (USB)");
    reveal_strlit(" (Bluetooth)");
    reveal_strlit(" (external)");
    assert(m.name + " ("@ + "built-in"@ + ")"@ =~= m.name + " (built-in)"@);
    assert(m.name + " ("@ + "USB"@ + ")"@ =~= m.name + " (USB)"@);
    assert(m.name + " ("@ + "Bluetooth"@ + ")"@ =~= m.name + " (Bluetooth)"@);
    assert(m.name + " ("@ + "external"@ + ")"@ =~= m.name + " (external)"@);
}

/// A microphone is best opened with one channel before two, and in floating point before 16 bits,
/// always at 16 kHz; a range fits where it has that format and those channels and covers the rate.
pub proof fn law_formats_by_preference(
    r: StreamRange,
    format: SampleFormat,
    channels: u16,
    rate: u32,
)
    ensures
        preference(0) == (SampleFormat::F32, 1u16),
        preference(1) == (SampleFormat::F32, 2u16),
        preference(2) == (SampleFormat::I16, 1u16),
        preference(3) == (SampleFormat::I16, 2u16),
        r.fits(format, channels, rate) <==> r.format == format && r.channels == channels
            && r.min_rate <= rate && rate <= r.max_rate,
        SAMPLE_RATE == 16_000,
{
}

/// A number within the bounds is kept; one outside becomes the bound that it is beyond.
pub proof fn law_clamped_to_the_bounds(x: int, low: int, high: int)
    requires
        low <= high,
    ensures
        low <= clamped(x, low, high) <= high,
        low <= x <= high ==> clamped(x, low, high) == x,
        x < low ==> clamped(x, low, high) == low,
        x > high ==> clamped(x, low, high) == high,
{
}

/// How far down a range of the device's stands: floating point before integers, mono before
/// stereo, and everything that cannot give 16 kHz in one of these last.
pub open spec fn standing(r: StreamRange) -> int {
    if !(r.min_rate <= 16_000 <= r.max_rate) || !(1 <= r.channels <= 2) {
        4
    } else if r.format == SampleFormat::F32 {
        r.channels - 1
    } else if r.format == SampleFormat::I16 {
        r.channels + 1
    } else {
        4
    }
}

/// Of the ranges that a device offers the one that stands first is taken, and of equals the
/// first. None is taken only where none gives 16 kHz in a format that is understood.
pub proof fn law_the_best_range_is_taken(ranges: &[StreamRange], r: Option<usize>, j: int)
    requires
        call_ensures(pick_config, (ranges,), r),
        0 <= j < ranges@.len(),
    ensures
        r is None ==> standing(ranges@[j]) == 4,
        r matches Some(k) ==> {
            &&& k < ranges@.len()
            &&& standing(ranges@[k as int]) < 4
            &&& standing(ranges@[k as int]) <= standing(ranges@[j])
            &&& standing(ranges@[k as int]) == standing(ranges@[j]) ==> k <= j
        },
{
    let v = ranges@;
    let n = standing(v[j]);
    if n < 4 {
        assert(v[j].fits(preference(n).0, preference(n).1, SAMPLE_RATE));
        assert(!no_fit(v, preference(n).0, preference(n).1, SAMPLE_RATE));
    }
    if r is None {
        if n < 4 {
            assert(no_fit(v, preference(n).0, preference(n).1, SAMPLE_RATE));
        }
    } else {
        let some = choose|m: int|
            0 <= m < 4 && !no_fit(v, (#[trigger] preference(m)).0, preference(m).1, SAMPLE_RATE);
        let best = lemma_some_preference_is_best(v, some);
        assert(is_first_fit(r, v, preference(best).0, preference(best).1, SAMPLE_RATE));
        assert(standing(v[r->0 as int]) == best);
        if n < best {
            assert(no_fit(v, preference(n).0, preference(n).1, SAMPLE_RATE));
        }
    }
}

proof fn lemma_some_preference_is_best(v: Seq<StreamRange>, n: int) -> (best: int)
    requires
        0 <= n < 4,
        !no_fit(v, preference(n).0, preference(n).1, SAMPLE_RATE),
    ensures
        is_best_preference(best, v),
    decreases n,
{
    if is_best_preference(n, v) {
        n
    } else {
        let m = choose|m: int|
            0 <= m < n && !no_fit(v, (#[trigger] preference(m)).0, preference(m).1, SAMPLE_RATE);
        lemma_some_preference_is_best(v, m)
    }
}

/// The buffer that is asked for lasts 30 ms, or as near to that as the device allows.
pub proof fn law_buffers_last_30_ms(rate: u32, low: u32, high: u32, r: Option<u32>)
    requires
        low <= high,
    ensures
        call_ensures(low_latency, (rate, None), r) ==> r is None,
        call_ensures(low_latency, (rate, Some((low, high))), r) ==> r is Some,
        call_ensures(low_latency, (rate, Some((low, high))), r) && low <= rate * 30 / 1000 <= high
            ==> 1000 * r->0 <= 30 * rate < 1000 * (r->0 + 1),
        call_ensures(low_latency, (rate, Some((low, high))), r) && rate * 30 / 1000 < low ==> r->0
            == low,
        call_ensures(low_latency, (rate, Some((low, high))), r) && rate * 30 / 1000 > high ==> r->0
            == high,
{
}

} // verus!
