//! Whisper model files: where they live, where they come from, and when a download is whole.

use vstd::prelude::*;

use crate::config::{data_dir, Config};
use crate::config;
use crate::paths;
use crate::paths::{join_path, with_extension};
use crate::text;
use crate::text::{append, concat, concat3, debug_quote, from_chars, has_text, numeral_chars,
    to_chars};

verus! {

/// Models published in ggml format by the whisper.cpp project, and what is said of them.
pub const KNOWN_MODELS: [(&'static str, &'static str); 8] = [
    ("tiny.en", "75 MB, fastest, rough"),
    ("base.en", "142 MB, fast, good for dictation"),
    ("small.en", "466 MB, noticeably more accurate"),
    ("medium.en", "1.5 GB, very accurate, slow on CPU"),
    ("large-v3-turbo", "1.6 GB, multilingual, best quality"),
    ("tiny", "75 MB, multilingual"),
    ("base", "142 MB, multilingual"),
    ("small", "466 MB, multilingual"),
];

pub open spec fn models_path(data_home: Option<Seq<char>>) -> Seq<char> {
    paths::below(config::data_path(data_home), "models"@)
}

/// The directory of the models, given the user's data directory.
pub fn models_dir(data_home: Option<&str>) -> (r: String)
    ensures
        r@ == models_path(paths::text_of(data_home)),
{
    join_path(&data_dir(data_home), "models")
}

pub open spec fn file_name(name: Seq<char>) -> Seq<char> {
    "ggml-"@ + name + ".bin"@
}

pub open spec fn model_file(data_home: Option<Seq<char>>, name: Seq<char>) -> Seq<char> {
    paths::below(models_path(data_home), file_name(name))
}

/// The file of a model.
pub fn path_for(data_home: Option<&str>, name: &str) -> (r: String)
    ensures
        r@ == model_file(paths::text_of(data_home), name@),
{
    join_path(&models_dir(data_home), &concat3("ggml-", name, ".bin"))
}

pub open spec fn model_url(name: Seq<char>) -> Seq<char> {
    "https://huggingface.co/ggerganov/whisper.cpp/resolve/main/"@ + file_name(name)
}

/// Where a model is fetched from.
pub fn url_for(name: &str) -> (r: String)
    ensures
        r@ == model_url(name@),
{
    concat(
        "https://huggingface.co/ggerganov/whisper.cpp/resolve/main/",
        &concat3("ggml-", name, ".bin"),
    )
}

impl Config {
    /// Where the Whisper model lives, explicit path first.
    pub fn model_path(&self, data_home: Option<&str>) -> (r: String)
        ensures
            r@ == match self.stt.model_path {
                Some(p) => p@,
                None => model_file(paths::text_of(data_home), self.stt.model@),
            },
    {
        match &self.stt.model_path {
            Some(p) => p.clone(),
            None => path_for(data_home, &self.stt.model),
        }
    }
}

// ---------------------------------------------------------------------------
// Downloads
// ---------------------------------------------------------------------------

/// A name that leads out of the directory of the models.
pub open spec fn leads_astray(name: Seq<char>) -> bool {
    text::contains(name, "/"@) || text::contains(name, ".."@)
}

/// Refuses names that are no model's.
pub fn check_name(name: &str) -> (r: Result<(), String>)
    ensures
        r is Ok <==> !leads_astray(name@),
        r matches Err(e) ==> e@ == "invalid model name "@ + text::debug_text(name@),
{
    let n = to_chars(name);
    if has_text(&n, &to_chars("/")) || has_text(&n, &to_chars("..")) {
        Err(concat("invalid model name ", &debug_quote(name)))
    } else {
        Ok(())
    }
}

/// The file that a download is written to until it is whole, so that an interrupted one never
/// leaves a truncated model that would later fail to load.
pub fn part_path(dest: &str) -> (r: String)
    ensures
        r@ == paths::re_extended(dest@, "bin.part"@),
{
    proof {
        reveal_strlit("bin.part");
    }
    with_extension(dest, "bin.part")
}

/// Why what was fetched is not the model.
pub open spec fn shortcoming(name: Seq<char>, done: nat, total: nat) -> Option<Seq<char>> {
    if total > 0 && done != total {
        Some(
            "download of "@ + name + " was cut short ("@ + text::decimal(done) + " of "@
                + text::decimal(total) + " bytes)"@,
        )
    } else if done < 1_000_000 {
        Some(
            model_url(name) + " returned only "@ + text::decimal(done) + " bytes; is `"@ + name
                + "` a real model name?"@,
        )
    } else {
        None
    }
}

/// Whether a download of `done` bytes is the model; `total` is what the server announced, or 0.
pub fn check_download(name: &str, done: u64, total: u64) -> (r: Result<(), String>)
    ensures
        match shortcoming(name@, done as nat, total as nat) {
            None => r is Ok,
            Some(why) => r matches Err(e) && e@ == why,
        },
{
    let count = from_chars(&numeral_chars(done, 10));
    if total > 0 && done != total {
        let mut out = concat3("download of ", name, " was cut short (");
        append(&mut out, &count);
        append(&mut out, " of ");
        append(&mut out, &from_chars(&numeral_chars(total, 10)));
        append(&mut out, " bytes)");
        Err(out)
    } else if done < 1_000_000 {
        let mut out = concat3(&url_for(name), " returned only ", &count);
        append(&mut out, " bytes; is `");
        append(&mut out, name);
        append(&mut out, "` a real model name?");
        Err(out)
    } else {
        Ok(())
    }
}

/// What is said when there is no model to load.
pub fn missing_model(path: &str, name: &str) -> (r: String)
    ensures
        r@ == "Whisper model not found at "@ + path@ + "; run `ravenvoice download-model "@ + name@
            + "`"@,
{
    let mut out = concat3("Whisper model not found at ", path, "; run `ravenvoice download-model ");
    append(&mut out, name);
    append(&mut out, "`");
    out
}

// ---------------------------------------------------------------------------
// Laws
// ---------------------------------------------------------------------------

/// A model with an admissible name lies in the directory of the models itself: what follows the
/// directory holds no separator.
pub proof fn law_models_stay_in_their_directory(data_home: Option<Seq<char>>, name: Seq<char>)
    requires
        !leads_astray(name),
    ensures
        model_file(data_home, name) == models_path(data_home).push('/') + file_name(name),
        !file_name(name).contains('/'),
{
    reveal_strlit("ggml-");
    reveal_strlit(".bin");
    reveal_strlit("models");
    reveal_strlit("/");
    let dir = models_path(data_home);
    assert(dir.last() == 's');
    assert(file_name(name)[0] == 'g');
    if file_name(name).contains('/') {
        let i = file_name(name).index_of('/');
        assert(5 <= i < 5 + name.len());
        assert(text::occurs_at(name, "/"@, i - 5)) by {
            assert(name.subrange(i - 5, i - 5 + 1) =~= "/"@);
        }
    }
}

/// A model is fetched into a file of its own beside it, whose name is the model's and one more
/// ending.
pub proof fn law_parts_lie_beside_their_models(data_home: Option<Seq<char>>, name: Seq<char>)
    requires
        !leads_astray(name),
    ensures
        paths::re_extended(model_file(data_home, name), "bin.part"@) == model_file(data_home, name)
            + ".part"@,
{
    reveal_strlit("ggml-");
    reveal_strlit(".bin");
    reveal_strlit("bin.part");
    reveal_strlit(".part");
    reveal_strlit(".");
    reveal_strlit("..");
    law_models_stay_in_their_directory(data_home, name);
    let dir = models_path(data_home);
    let file = file_name(name);
    let path = model_file(data_home, name);
    let n = dir.len() as int;
    assert forall|k: int| n < k < path.len() implies #[trigger] path[k] != '/' by {
        assert(path[k] == file[k - n - 1]);
        assert(file.contains(file[k - n - 1]));
    }
    paths::lemma_last_at(path, '/', n);
    assert(paths::last_part(path) =~= file);
    let dot = file.len() - 4;
    paths::lemma_last_at(file, '.', dot);
    assert(path.take(n + 1) + file.take(dot) + "."@ + "bin.part"@ =~= path + ".part"@);
}

/// A download is only ever taken for the model when it is as long as announced, and never when it
/// is too short to be one.
pub proof fn law_only_whole_downloads_are_kept(name: Seq<char>, done: nat, total: nat)
    ensures
        shortcoming(name, done, total) is None <==> done >= 1_000_000 && (total == 0 || done
            == total),
{
}

/// A model's file and where it is fetched from are told by its name alone.
pub proof fn law_files_and_addresses_go_by_the_name(home: Seq<char>, name: Seq<char>)
    requires
        home.len() > 0,
        home.last() != '/',
    ensures
        model_file(Some(home), name) == home + "/ravenvoice/models/ggml-"@ + name + ".bin"@,
        model_url(name) == "https://huggingface.co/ggerganov/whisper.cpp/resolve/main/ggml-"@ + name
            + ".bin"@,
{
    reveal_strlit("ggml-");
    reveal_strlit(".bin");
    reveal_strlit("models");
    reveal_strlit("ravenvoice");
    reveal_strlit("/ravenvoice/models/ggml-");
    reveal_strlit("https://huggingface.co/ggerganov/whisper.cpp/resolve/main/");
    reveal_strlit("https://huggingface.co/ggerganov/whisper.cpp/resolve/main/ggml-");
    let own = home.push('/') + "ravenvoice"@;
    assert(config::data_path(Some(home)) == own);
    assert(own.last() == 'e');
    let dir = own.push('/') + "models"@;
    assert(dir.last() == 's');
    assert(file_name(name)[0] == 'g');
    assert(dir.push('/') + file_name(name) =~= home + "/ravenvoice/models/ggml-"@ + name
        + ".bin"@);
    assert(model_url(name) =~= "https://huggingface.co/ggerganov/whisper.cpp/resolve/main/ggml-"@
        + name + ".bin"@);
}

/// The names that are refused are those with a separator or with two dots in a row.
pub proof fn law_astray_by_a_separator_or_two_dots(name: Seq<char>)
    ensures
        leads_astray(name) <==> (exists|i: int| 0 <= i < name.len() && #[trigger] name[i] == '/')
            || (exists|i: int|
            0 <= i < name.len() - 1 && #[trigger] name[i] == '.' && name[i + 1] == '.'),
{
    reveal_strlit("/");
    reveal_strlit("..");
    if text::contains(name, "/"@) {
        let i = choose|i: int| text::occurs_at(name, "/"@, i);
        assert(name.subrange(i, i + 1)[0] == name[i]);
        assert(name[i] == '/');
    }
    if text::contains(name, ".."@) {
        let i = choose|i: int| text::occurs_at(name, ".."@, i);
        assert(name.subrange(i, i + 2)[0] == name[i]);
        assert(name.subrange(i, i + 2)[1] == name[i + 1]);
        assert(name[i] == '.' && name[i + 1] == '.');
    }
    if exists|i: int| 0 <= i < name.len() && #[trigger] name[i] == '/' {
        let i = choose|i: int| 0 <= i < name.len() && #[trigger] name[i] == '/';
        assert(name.subrange(i, i + 1) =~= "/"@);
        assert(text::occurs_at(name, "/"@, i));
    }
    if exists|i: int| 0 <= i < name.len() - 1 && #[trigger] name[i] == '.' && name[i + 1] == '.' {
        let i = choose|i: int|
            0 <= i < name.len() - 1 && #[trigger] name[i] == '.' && name[i + 1] == '.';
        assert(name.subrange(i, i + 2) =~= ".."@);
        assert(text::occurs_at(name, ".."@, i));
    }
}

/// A download that is not kept says how far it came, and a short one what may be the matter.
pub proof fn law_short_downloads_are_explained(name: Seq<char>, done: nat, total: nat)
    ensures
        total > 0 && done != total ==> shortcoming(name, done, total) == Some(
            "download of "@ + name + " was cut short ("@ + text::decimal(done) + " of "@
                + text::decimal(total) + " bytes)"@,
        ),
        (total == 0 || done == total) && done < 1_000_000 ==> shortcoming(name, done, total)
            == Some(
            "https://huggingface.co/ggerganov/whisper.cpp/resolve/main/ggml-"@ + name
                + ".bin returned only "@ + text::decimal(done) + " bytes; is `"@ + name
                + "` a real model name?"@,
        ),
{
    reveal_strlit("ggml-");
    reveal_strlit(".bin");
    reveal_strlit(" returned only ");
    reveal_strlit(".bin returned only ");
    reveal_strlit("https://huggingface.co/ggerganov/whisper.cpp/resolve/main/");
    reveal_strlit("https://huggingface.co/ggerganov/whisper.cpp/resolve/main/ggml-");
    assert(model_url(name) + " returned only "@
        =~= "https://huggingface.co/ggerganov/whisper.cpp/resolve/main/ggml-"@ + name
        + ".bin returned only "@);
}

/// A model file of one's own comes before the one that goes by the model's name.
pub proof fn law_a_model_of_ones_own_comes_first(c: &Config, data_home: Option<&str>, r: String)
    requires
        call_ensures(Config::model_path, (c, data_home), r),
    ensures
        c.stt.model_path is Some ==> r@ == c.stt.model_path->0@,
        c.stt.model_path is None && data_home is Some ==> r@ == model_file(
            Some(data_home->0@),
            c.stt.model@,
        ),
        c.stt.model_path is None && data_home is None ==> r@ == model_file(None, c.stt.model@),
{
}

/// Names that lead out of the directory of the models are refused, and no others are.
pub proof fn law_names_are_refused_where_they_lead_astray(name: &str, r: Result<(), String>)
    requires
        call_ensures(check_name, (name,), r),
    ensures
        r is Err <==> name@.contains('/') || (exists|i: int|
            0 <= i < name@.len() - 1 && #[trigger] name@[i] == '.' && name@[i + 1] == '.'),
{
    law_astray_by_a_separator_or_two_dots(name@);
}

} // verus!
