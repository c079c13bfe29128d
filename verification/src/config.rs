//! Settings of the history store and where its files live.
use vstd::prelude::*;

verus! {

/// Settings read from the configuration file.
#[derive(Debug, Clone)]
pub struct Config {
    /// Search mode: "fzf", "fuzzy" (built-in picker), or "auto".
    pub search_mode: String,
    /// Largest number of entries kept; older ones are pruned.
    pub max_history: usize,
    /// Address of a sync server (reserved).
    pub sync_server: Option<String>,
}

/// The search mode used when none is configured.
pub open spec fn spec_default_search_mode() -> Seq<char> {
    seq!['f', 'z', 'f']
}

/// The history size used when none is configured.
pub open spec fn spec_default_max_history() -> usize {
    100_000
}

/// The search mode used when none is configured: `"fzf"`.
pub fn default_search_mode() -> (s: String)
    ensures
        s@ == spec_default_search_mode(),
{
    broadcast use vstd::string::group_string_axioms;
    let s = "fzf".to_string();
    proof {
        reveal_strlit("fzf");
    }
    s
}

/// The history size used when none is configured: 100 000 entries.
pub fn default_max_history() -> (n: usize)
    ensures
        n == spec_default_max_history(),
{
    100_000
}

impl Default for Config {
    /// Search with fzf, keep 100 000 entries, no sync server.
    fn default() -> (c: Config)
        ensures
            c.search_mode@ == spec_default_search_mode(),
            c.max_history == spec_default_max_history(),
            c.sync_server is None,
    {
        Config {
            search_mode: default_search_mode(),
            max_history: default_max_history(),
            sync_server: None,
        }
    }
}

} // verus!

verus! {

#[verifier::external_type_specification]
#[verifier::external_body]
pub struct ExPathBuf(std::path::PathBuf);

/// A filesystem path, with its text when the path is valid Unicode. It is
/// built only from text or by joining, so the text is always what
/// `Path::to_str` reads from the path.
pub struct LocalPath {
    native: std::path::PathBuf,
    text: Option<String>,
}

/// The text of a path, when it is valid Unicode.
pub closed spec fn path_text(p: LocalPath) -> Option<Seq<char>> {
    match p.text {
        Some(t) => Some(t@),
        None => None,
    }
}

impl LocalPath {
    /// The path named by the text `s`.
    pub fn from_text(s: &str) -> (r: LocalPath)
        ensures
            path_text(r) == Some(s@),
    {
        path_from_text(s)
    }

    /// The text of the path, when it is valid Unicode.
    pub fn text(&self) -> (r: Option<&String>)
        ensures
            match r {
                Some(t) => path_text(*self) == Some(t@),
                None => path_text(*self) is None,
            },
    {
        match &self.text {
            Some(t) => Some(t),
            None => None,
        }
    }

    /// The path as the operating system has it.
    pub fn native(&self) -> &std::path::PathBuf {
        &self.native
    }
}

/// A single plain file or directory name: not empty, not `.` or `..`,
/// and without separators or a drive colon.
pub open spec fn is_plain_name(c: Seq<char>) -> bool {
    &&& c.len() > 0
    &&& c != seq!['.']
    &&& c != seq!['.', '.']
    &&& forall|i: int| 0 <= i < c.len() ==> #[trigger] c[i] != '/' && c[i] != '\\' && c[i] != ':'
}

/// A path separator: `/`, or `\` on Windows.
pub open spec fn is_separator(ch: char) -> bool {
    ch == '/' || ch == '\\'
}

/// A Windows verbatim path (`\\?\...`), which joining normalizes.
pub open spec fn is_verbatim(b: Seq<char>) -> bool {
    b.len() >= 4 && b[0] == '\\' && b[1] == '\\' && b[2] == '?' && b[3] == '\\'
}

/// `r` is `base` with the plain name `name` appended: `r` ends with
/// `name`; an empty `base` gives `name` alone; a `base` ending in `/` gets
/// `name` directly; any other ordinary `base` gets one separator, then
/// `name`.
pub open spec fn joins_name(base: Seq<char>, name: Seq<char>, r: Seq<char>) -> bool {
    &&& r.len() >= name.len()
    &&& r.skip(r.len() - name.len()) == name
    &&& base.len() == 0 ==> r == name
    &&& (base.len() > 0 && !is_verbatim(base) && base.last() != '\\' && base.last() != ':') ==> if base.last()
        == '/' {
        r == base + name
    } else {
        &&& r.len() == base.len() + 1 + name.len()
        &&& r.take(base.len() as int) == base
        &&& is_separator(r[base.len() as int])
        &&& r.skip(base.len() as int + 1) == name
    }
}

/// What std's `Path::join` gives for `base` and `child`, both taken as
/// text.
pub uninterp spec fn path_joined(base: Seq<char>, child: Seq<char>) -> Seq<char>;

/// std's `Path::join`, with the text of the result read by `Path::to_str`.
/// Its contract claims: when `base` is valid Unicode, so is the result, and
/// its text is `path_joined` of the two texts; joining a plain name appends
/// it as `joins_name` says (`PathBuf::push`: a relative path extends the
/// path); and a path that is not valid Unicode stays so when a plain name
/// is appended. Nothing is claimed of other joins onto such a path.
#[verifier::external_body]
fn join_path(base: &LocalPath, child: &str) -> (r: LocalPath)
    ensures
        match path_text(*base) {
            Some(b) => {
                &&& path_text(r) == Some(path_joined(b, child@))
                &&& is_plain_name(child@) ==> joins_name(b, child@, path_joined(b, child@))
            },
            None => is_plain_name(child@) ==> path_text(r) is None,
        },
{
    let native = base.native.join(child);
    let text = native.to_str().map(|t| t.to_owned());
    LocalPath { native, text }
}

/// std's `PathBuf::from` on text; the text of such a path is the text it
/// was made from.
#[verifier::external_body]
fn path_from_text(s: &str) -> (r: LocalPath)
    ensures
        path_text(r) == Some(s@),
{
    let native = std::path::PathBuf::from(s);
    let text = native.to_str().map(|t| t.to_owned());
    LocalPath { native, text }
}

/// `dirs::data_local_dir`, the user's local data directory, with its text
/// read by `Path::to_str`. It is read from the environment and the
/// operating system, so nothing is claimed of it.
#[verifier::external_body]
fn local_data_dir() -> Option<LocalPath> {
    dirs::data_local_dir().map(|p| LocalPath { text: p.to_str().map(|t| t.to_owned()), native: p })
}

/// The text of the directory that the data lives under: the local data
/// directory's, or `"."` when there is none.
pub open spec fn local_base(local: Option<LocalPath>) -> Option<Seq<char>> {
    match local {
        Some(d) => path_text(d),
        None => Some(seq!['.']),
    }
}

/// `name` under the directory `base` (when `base` is valid Unicode).
pub open spec fn placed_under(base: Option<Seq<char>>, name: Seq<char>, r: LocalPath) -> bool {
    match base {
        Some(b) => {
            &&& path_text(r) == Some(path_joined(b, name))
            &&& is_plain_name(name) ==> joins_name(b, name, path_joined(b, name))
        },
        None => is_plain_name(name) ==> path_text(r) is None,
    }
}

/// The directory named `name` under the local data directory `local`, or
/// under `"."` when there is none.
pub fn under_local_data(local: Option<LocalPath>, name: &str) -> (r: LocalPath)
    ensures
        placed_under(local_base(local), name@, r),
{
    match &local {
        Some(d) => join_path(d, name),
        None => {
            let dot = ".";
            proof {
                reveal_strlit(".");
                assert(dot@ =~= seq!['.']);
            }
            let base = path_from_text(dot);
            join_path(&base, name)
        },
    }
}

/// The file `file` inside the directory `dir`.
pub fn file_in(dir: &LocalPath, file: &str) -> (r: LocalPath)
    ensures
        placed_under(path_text(*dir), file@, r),
{
    join_path(dir, file)
}

/// The name of the data directory: `stytsch`.
pub open spec fn data_dir_name() -> Seq<char> {
    seq!['s', 't', 'y', 't', 's', 'c', 'h']
}

/// The name of the configuration file: `config.toml`.
pub open spec fn config_file_name() -> Seq<char> {
    seq!['c', 'o', 'n', 'f', 'i', 'g', '.', 't', 'o', 'm', 'l']
}

/// The name of the database file: `history.db`.
pub open spec fn db_file_name() -> Seq<char> {
    seq!['h', 'i', 's', 't', 'o', 'r', 'y', '.', 'd', 'b']
}

/// The name of Clink's directory: `clink`.
pub open spec fn clink_dir_name() -> Seq<char> {
    seq!['c', 'l', 'i', 'n', 'k']
}

/// `p` is the directory `name` joined under some directory.
pub open spec fn is_dir_named(p: Seq<char>, name: Seq<char>) -> bool {
    exists|b: Seq<char>| #[trigger] path_joined(b, name) == p && joins_name(b, name, p)
}

/// `p` is the data directory of the history store: `stytsch` under the
/// local data directory.
pub open spec fn is_data_dir(p: Seq<char>) -> bool {
    is_dir_named(p, data_dir_name())
}

/// `p` is the file `name` in a data directory.
pub open spec fn is_data_file(p: Seq<char>, name: Seq<char>) -> bool {
    exists|d: Seq<char>| is_data_dir(d) && #[trigger] path_joined(d, name) == p && joins_name(d, name, p)
}

proof fn lemma_plain_names()
    ensures
        is_plain_name(data_dir_name()),
        is_plain_name(config_file_name()),
        is_plain_name(db_file_name()),
        is_plain_name(clink_dir_name()),
{
    assert(data_dir_name() != seq!['.']);
    assert(config_file_name() != seq!['.']);
    assert(db_file_name() != seq!['.']);
    assert(clink_dir_name() != seq!['.']);
    assert(data_dir_name() != seq!['.', '.']);
    assert(config_file_name() != seq!['.', '.']);
    assert(db_file_name() != seq!['.', '.']);
    assert(clink_dir_name() != seq!['.', '.']);
}

/// The local data directory's subdirectory `clink`, where Clink loads
/// scripts from.
pub fn clink_dir() -> (r: LocalPath)
    ensures
        path_text(r) matches Some(t) ==> is_dir_named(t, clink_dir_name()),
{
    let local = local_data_dir();
    let name = "clink";
    proof {
        reveal_strlit("clink");
        assert(name@ =~= clink_dir_name());
        lemma_plain_names();
    }
    let r = under_local_data(local, name);
    r
}

impl Config {
    /// The data directory of the history store.
    pub fn data_dir() -> (r: LocalPath)
        ensures
            path_text(r) matches Some(t) ==> is_data_dir(t),
    {
        let local = local_data_dir();
        let name = "stytsch";
        proof {
            reveal_strlit("stytsch");
            assert(name@ =~= data_dir_name());
            lemma_plain_names();
        }
        let r = under_local_data(local, name);
        r
    }

    /// The configuration file: `config.toml` in the data directory.
    pub fn config_path() -> (r: LocalPath)
        ensures
            path_text(r) matches Some(t) ==> is_data_file(t, config_file_name()),
    {
        let dir = Self::data_dir();
        let name = "config.toml";
        proof {
            reveal_strlit("config.toml");
            assert(name@ =~= config_file_name());
            lemma_plain_names();
        }
        let r = file_in(&dir, name);
        r
    }

    /// The database file: `history.db` in the data directory.
    pub fn db_path() -> (r: LocalPath)
        ensures
            path_text(r) matches Some(t) ==> is_data_file(t, db_file_name()),
    {
        let dir = Self::data_dir();
        let name = "history.db";
        proof {
            reveal_strlit("history.db");
            assert(name@ =~= db_file_name());
            lemma_plain_names();
        }
        let r = file_in(&dir, name);
        r
    }
}

/// The configuration file and the database sit side by side in one data
/// directory: for the same data directory `d` (itself `stytsch` joined
/// under some directory), each file's path is `d`, one separator, and the
/// file's name, so the two paths share the directory `d` and differ.
pub proof fn data_files_share_the_data_dir(base: Seq<char>, d: Seq<char>, config: Seq<char>, db: Seq<char>)
    requires
        joins_name(base, data_dir_name(), d),
        joins_name(d, config_file_name(), config),
        joins_name(d, db_file_name(), db),
        !is_verbatim(d),
    ensures
        config.take(d.len() as int) == d,
        db.take(d.len() as int) == d,
        is_separator(config[d.len() as int]),
        is_separator(db[d.len() as int]),
        config.skip(d.len() as int + 1) == config_file_name(),
        db.skip(d.len() as int + 1) == db_file_name(),
        config != db,
{
    let n = data_dir_name();
    assert(d.skip(d.len() - n.len()) == n);
    assert(d.len() >= 7);
    assert(d.last() == d.skip(d.len() - n.len())[6]);
    assert(d.last() == 'h');
    if config == db {
        assert(config.skip(d.len() as int + 1) == db.skip(d.len() as int + 1));
        assert(config_file_name()[0] == 'c');
        assert(db_file_name()[0] == 'h');
    }
}

} // verus!
