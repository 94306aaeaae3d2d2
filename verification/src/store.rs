use vstd::prelude::*;
use crate::codec::{decode_error_message, DecodeError};
use crate::model::{
    history_view, rich_history_view, snippets_view, HistoryEntry, HistoryEntryView,
    RichHistoryEntry, RichHistoryEntryView, SnippetEntry, SnippetEntryView,
};
use crate::settings::{
    decode_settings, default_settings, encode_settings, lemma_normalize_idempotent,
    lemma_settings_roundtrip, normalize_settings, spec_decode_settings, spec_encode_settings,
    spec_normalize_settings, AppSettings,
};
use crate::storage::{
    decode_history, decode_rich_history, decode_snippets, encode_history, encode_rich_history,
    encode_snippets, spec_decode_history, spec_decode_rich_history, spec_decode_snippets,
    spec_encode_history, spec_encode_rich_history, spec_encode_snippets,
};
use crate::text::{string_push, string_push_str};
use vstd::utf8::{decode_utf8, encode_utf8, encode_utf8_decode_utf8};

verus! {

/// `name` inside the directory `root`, as `Path::join` gives it for a relative name.
pub open spec fn join_path(root: Seq<char>, name: Seq<char>) -> Seq<char> {
    if root.len() == 0 {
        name
    } else if root.last() == '/' {
        root + name
    } else {
        root + seq!['/'] + name
    }
}

/// The data directory and the files kept in it.
#[derive(Clone, Debug)]
pub struct Store {
    root: String,
}

/// Bytes to be written to a file, replacing what it held.
#[derive(Clone, Debug, PartialEq, Eq)]
pub struct FileWrite {
    pub path: String,
    pub bytes: Vec<u8>,
}

impl View for Store {
    type V = Seq<char>;

    /// The data directory.
    closed spec fn view(&self) -> Seq<char> {
        self.root@
    }
}

/// The message for a data file that could not be read back.
pub open spec fn parse_failure_message(path: Seq<char>, e: DecodeError) -> Seq<char> {
    "failed to parse "@ + path + ": "@ + decode_error_message(e)
}

fn join(root: &str, name: &str) -> (out: String)
    ensures
        out@ == join_path(root@, name@),
{
    let mut out = String::new();
    string_push_str(&mut out, root);
    let chars = crate::text::chars_of(root);
    if chars.len() > 0 && chars[chars.len() - 1] != '/' {
        string_push(&mut out, '/');
    }
    string_push_str(&mut out, name);
    assert(out@ =~= join_path(root@, name@));
    out
}

fn bytes_of(s: &str) -> (out: Vec<u8>)
    ensures
        out@ == encode_utf8(s@),
{
    let b = s.as_bytes();
    let mut out: Vec<u8> = Vec::new();
    let mut i: usize = 0;
    while i < b.len()
        invariant
            i <= b@.len(),
            out@ == b@.take(i as int),
        decreases b@.len() - i,
    {
        out.push(b[i]);
        assert(b@.take(i + 1) =~= b@.take(i as int).push(b@[i as int]));
        i = i + 1;
    }
    assert(b@.take(b@.len() as int) =~= b@);
    out
}

fn parse_failure(path: &str, e: DecodeError) -> (m: String)
    ensures
        m@ == parse_failure_message(path@, e),
{
    let mut m = String::new();
    string_push_str(&mut m, "failed to parse ");
    string_push_str(&mut m, path);
    string_push_str(&mut m, ": ");
    let d = e.message();
    string_push_str(&mut m, d.as_str());
    m
}

/// The data directory: `RCLIPY_HOME` when it is set; otherwise, under the home directory,
/// `Library/Application Support/clipy-rs` on macOS and `.local/share/clipy-rs` elsewhere;
/// an error when neither variable is set.
pub open spec fn spec_data_root(rclipy_home: Option<Seq<char>>, home: Option<Seq<char>>, macos: bool) -> Result<
    Seq<char>,
    Seq<char>,
> {
    match rclipy_home {
        Some(r) => Ok(r),
        None => match home {
            None => Err("HOME is not set"@),
            Some(h) => if macos {
                Ok(join_path(join_path(join_path(h, "Library"@), "Application Support"@), "clipy-rs"@))
            } else {
                Ok(join_path(join_path(join_path(h, ".local"@), "share"@), "clipy-rs"@))
            },
        },
    }
}

/// Chooses the data directory from the values of `RCLIPY_HOME` and `HOME`, as
/// [`spec_data_root`] describes.
pub fn data_root(rclipy_home: Option<&str>, home: Option<&str>, macos: bool) -> (r: Result<
    String,
    String,
>)
    ensures
        match spec_data_root(
            match rclipy_home {
                Some(v) => Some(v@),
                None => None,
            },
            match home {
                Some(v) => Some(v@),
                None => None,
            },
            macos,
        ) {
            Ok(p) => r matches Ok(v) && v@ == p,
            Err(m) => r matches Err(v) && v@ == m,
        },
{
    match rclipy_home {
        Some(r) => {
            let mut out = String::new();
            string_push_str(&mut out, r);
            Ok(out)
        },
        None => match home {
            None => {
                let mut m = String::new();
                string_push_str(&mut m, "HOME is not set");
                Err(m)
            },
            Some(h) => if macos {
                let a = join(h, "Library");
                let b = join(a.as_str(), "Application Support");
                Ok(join(b.as_str(), "clipy-rs"))
            } else {
                let a = join(h, ".local");
                let b = join(a.as_str(), "share");
                Ok(join(b.as_str(), "clipy-rs"))
            },
        },
    }
}

impl Store {
    /// The store kept in the directory `root`.
    pub fn new(root: String) -> (s: Store)
        ensures
            s@ == root@,
    {
        Store { root }
    }

    /// The data directory.
    pub fn root(&self) -> (r: &str)
        ensures
            r@ == self@,
    {
        self.root.as_str()
    }

    /// The text history file.
    pub fn history_path(&self) -> (p: String)
        ensures
            p@ == join_path(self@, "history.bin"@),
    {
        join(self.root.as_str(), "history.bin")
    }

    /// The snippet file.
    pub fn snippets_path(&self) -> (p: String)
        ensures
            p@ == join_path(self@, "snippets.bin"@),
    {
        join(self.root.as_str(), "snippets.bin")
    }

    /// The image and file history file.
    pub fn rich_history_path(&self) -> (p: String)
        ensures
            p@ == join_path(self@, "rich_history.bin"@),
    {
        join(self.root.as_str(), "rich_history.bin")
    }

    /// The settings file.
    pub fn settings_path(&self) -> (p: String)
        ensures
            p@ == join_path(self@, "settings.conf"@),
    {
        join(self.root.as_str(), "settings.conf")
    }

    /// The text history held by the history file's contents; `None` stands for a file
    /// that does not exist, which holds no entries.
    pub fn load_history(&self, contents: Option<&[u8]>) -> (r: Result<Vec<HistoryEntry>, String>)
        ensures
            match contents {
                None => r matches Ok(v) && v@.len() == 0,
                Some(b) => match spec_decode_history(b@) {
                    Ok(es) => r matches Ok(v) && history_view(v@) == es,
                    Err(e) => r matches Err(m) && m@ == parse_failure_message(
                        join_path(self@, "history.bin"@),
                        e,
                    ),
                },
            },
    {
        match contents {
            None => Ok(Vec::new()),
            Some(b) => match decode_history(b) {
                Ok(v) => Ok(v),
                Err(e) => Err(parse_failure(self.history_path().as_str(), e)),
            },
        }
    }

    /// What to write to save the text history; loading those bytes gives the entries back.
    pub fn save_history(&self, entries: &[HistoryEntry]) -> (w: FileWrite)
        ensures
            w.path@ == join_path(self@, "history.bin"@),
            w.bytes@ == spec_encode_history(history_view(entries@)),
            spec_decode_history(w.bytes@) == Ok::<Seq<HistoryEntryView>, DecodeError>(history_view(entries@)),
    {
        FileWrite { path: self.history_path(), bytes: encode_history(entries) }
    }

    /// The snippets held by the snippet file's contents; `None` stands for a missing file.
    pub fn load_snippets(&self, contents: Option<&[u8]>) -> (r: Result<Vec<SnippetEntry>, String>)
        ensures
            match contents {
                None => r matches Ok(v) && v@.len() == 0,
                Some(b) => match spec_decode_snippets(b@) {
                    Ok(es) => r matches Ok(v) && snippets_view(v@) == es,
                    Err(e) => r matches Err(m) && m@ == parse_failure_message(
                        join_path(self@, "snippets.bin"@),
                        e,
                    ),
                },
            },
    {
        match contents {
            None => Ok(Vec::new()),
            Some(b) => match decode_snippets(b) {
                Ok(v) => Ok(v),
                Err(e) => Err(parse_failure(self.snippets_path().as_str(), e)),
            },
        }
    }

    /// What to write to save the snippets; loading those bytes gives them back.
    pub fn save_snippets(&self, snippets: &[SnippetEntry]) -> (w: FileWrite)
        ensures
            w.path@ == join_path(self@, "snippets.bin"@),
            w.bytes@ == spec_encode_snippets(snippets_view(snippets@)),
            spec_decode_snippets(w.bytes@) == Ok::<Seq<SnippetEntryView>, DecodeError>(snippets_view(snippets@)),
    {
        FileWrite { path: self.snippets_path(), bytes: encode_snippets(snippets) }
    }

    /// The image and file history held by its file's contents; `None` stands for a
    /// missing file.
    pub fn load_rich_history(&self, contents: Option<&[u8]>) -> (r: Result<
        Vec<RichHistoryEntry>,
        String,
    >)
        ensures
            match contents {
                None => r matches Ok(v) && v@.len() == 0,
                Some(b) => match spec_decode_rich_history(b@) {
                    Ok(es) => r matches Ok(v) && rich_history_view(v@) == es,
                    Err(e) => r matches Err(m) && m@ == parse_failure_message(
                        join_path(self@, "rich_history.bin"@),
                        e,
                    ),
                },
            },
    {
        match contents {
            None => Ok(Vec::new()),
            Some(b) => match decode_rich_history(b) {
                Ok(v) => Ok(v),
                Err(e) => Err(parse_failure(self.rich_history_path().as_str(), e)),
            },
        }
    }

    /// What to write to save the image and file history; loading those bytes gives the
    /// entries back.
    pub fn save_rich_history(&self, entries: &[RichHistoryEntry]) -> (w: FileWrite)
        ensures
            w.path@ == join_path(self@, "rich_history.bin"@),
            w.bytes@ == spec_encode_rich_history(rich_history_view(entries@)),
            spec_decode_rich_history(w.bytes@) == Ok::<Seq<RichHistoryEntryView>, DecodeError>(rich_history_view(entries@)),
    {
        FileWrite { path: self.rich_history_path(), bytes: encode_rich_history(entries) }
    }

    /// The settings held by the settings file's text; `None` stands for a missing file,
    /// which gives the defaults.
    pub fn load_settings(&self, contents: Option<&str>) -> (s: AppSettings)
        ensures
            s == match contents {
                None => default_settings(),
                Some(t) => spec_decode_settings(t@),
            },
    {
        match contents {
            None => AppSettings::default(),
            Some(t) => decode_settings(t),
        }
    }

    /// What to write to save the settings, normalized first.
    pub fn save_settings(&self, settings: &AppSettings) -> (w: FileWrite)
        ensures
            w.path@ == join_path(self@, "settings.conf"@),
            w.bytes@ == encode_utf8(spec_encode_settings(spec_normalize_settings(*settings))),
    {
        let normalized = normalize_settings(*settings);
        let text = encode_settings(&normalized);
        FileWrite { path: self.settings_path(), bytes: bytes_of(text.as_str()) }
    }
}

/// Settings read back from the file that saving them writes are the normalized settings:
/// saving and then loading changes nothing for settings that were already normalized.
pub proof fn lemma_store_settings_roundtrip(s: AppSettings)
    ensures
        spec_decode_settings(decode_utf8(encode_utf8(spec_encode_settings(spec_normalize_settings(s)))))
            == spec_normalize_settings(s),
{
    encode_utf8_decode_utf8(spec_encode_settings(spec_normalize_settings(s)));
    lemma_normalize_idempotent(s);
    lemma_settings_roundtrip(spec_normalize_settings(s));
}

} // verus!
