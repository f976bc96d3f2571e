//! Desktop applications: which entries can be launched, in which order they
//! are listed, and how one is launched.

use vstd::prelude::*;

use crate::allowlist::Allowlist;
use crate::error;
use crate::error::{error2, ControllerError, ErrorCode};
use crate::command;
use crate::command::expand_command;
use crate::sort;
use crate::sort::sorted_order;
use crate::text;
use crate::text::{
    contains_char, contains_text, is_text, list_has_text, replace_char, same_text, split,
    split_once, strip_suffix, texts, to_lowercase, trim,
};
use crate::types::clone_opt;

verus! {

/// What a launcher is configured with.
#[derive(Debug)]
pub struct ApplicationConfig {
    pub display: String,
    pub allow_apps: Vec<String>,
}

/// What a launcher offers.
#[derive(Debug, Clone, Copy, PartialEq, Eq, Structural)]
pub struct ApplicationCapabilities {
    pub desktop_entry_launch: bool,
    pub terminal_entries_excluded: bool,
    pub allowlist_enabled: bool,
}

/// Which applications to list.
#[derive(Debug)]
pub struct ListAppsRequest {
    pub query: Option<String>,
}

impl Default for ListAppsRequest {
    fn default() -> (request: Self)
        ensures
            request.query is None,
    {
        ListAppsRequest { query: None }
    }
}

/// An application, by its identifier and its name.
#[derive(Debug, PartialEq, Eq)]
pub struct AppInfo {
    pub app_id: String,
    pub name: String,
}

impl Clone for AppInfo {
    fn clone(&self) -> (copy: Self)
        ensures
            copy == *self,
    {
        AppInfo { app_id: self.app_id.clone(), name: self.name.clone() }
    }
}

/// Applications in the order of their names.
#[derive(Debug)]
pub struct AppList {
    pub apps: Vec<AppInfo>,
}

/// Asks to launch an application.
#[derive(Debug)]
pub struct LaunchAppRequest {
    pub app_id: String,
}

/// The outcome of a launch.
#[derive(Debug)]
pub struct LaunchAppResult {
    pub launched: bool,
    pub app_id: String,
    pub name: String,
    pub pid: u32,
}

/// Whether a desktop entry can be decoded at all.
pub uninterp spec fn entry_decodes(
    path: Seq<char>,
    content: Seq<char>,
    locales: Seq<Seq<char>>,
) -> bool;

/// The value of a key of the main group of a desktop entry.
pub uninterp spec fn entry_value(
    path: Seq<char>,
    content: Seq<char>,
    locales: Seq<Seq<char>>,
    key: Seq<char>,
) -> Option<Seq<char>>;

/// The name of a desktop entry in the first of some locales that it has.
pub uninterp spec fn entry_name(
    path: Seq<char>,
    content: Seq<char>,
    locales: Seq<Seq<char>>,
) -> Option<Seq<char>>;

/// Why the crate's own reading of the `Exec` value fails, if it does.
pub uninterp spec fn exec_problem(
    path: Seq<char>,
    content: Seq<char>,
    locales: Seq<Seq<char>>,
) -> Option<Seq<char>>;

/// What a desktop entry says.
#[derive(Debug)]
pub struct DesktopFile {
    pub type_: Option<String>,
    pub name: Option<String>,
    pub exec_value: Option<String>,
    pub exec_problem: Option<String>,
    pub try_exec: Option<String>,
    pub path: Option<String>,
    pub icon: Option<String>,
    pub hidden: bool,
    pub no_display: bool,
    pub terminal: bool,
    pub only_show_in: Option<Vec<String>>,
    pub not_show_in: Option<Vec<String>>,
}

/// The texts of an optional list.
pub open spec fn opt_texts(list: Option<Vec<String>>) -> Option<Seq<Seq<char>>> {
    match list {
        Some(values) => Some(texts(values@)),
        None => None,
    }
}

/// The parts of an optional value between semicolons.
pub open spec fn opt_pieces(value: Option<Seq<char>>) -> Option<Seq<Seq<char>>> {
    match value {
        Some(list) => Some(text::pieces(list, ';')),
        None => None,
    }
}

/// `DesktopEntry::from_str` and `DesktopEntry::desktop_entry` of
/// freedesktop-desktop-entry: where the text of an entry can be decoded, the
/// value that each key has in the main group.
#[verifier::external_body]
fn decode_values(path: &str, content: &str, locales: &Vec<String>, keys: &Vec<String>) -> (values:
    Option<Vec<Option<String>>>)
    ensures
        values is Some == entry_decodes(path@, content@, texts(locales@)),
        values matches Some(list) ==> list@.len() == keys@.len() && forall|i: int|
            0 <= i < keys@.len() ==> text::opt_text(#[trigger] list@[i]) == entry_value(
                path@,
                content@,
                texts(locales@),
                keys@[i]@,
            ),
{
    let locales = Some(locales.as_slice());
    let entry = freedesktop_desktop_entry::DesktopEntry::from_str(path, content, locales).ok()?;
    Some(keys.iter().map(|key| entry.desktop_entry(key).map(str::to_owned)).collect())
}

/// `DesktopEntry::name` of freedesktop-desktop-entry, of the entry that
/// `DesktopEntry::from_str` decodes: its name in the first of some locales
/// that it has.
#[verifier::external_body]
fn decode_name(path: &str, content: &str, locales: &Vec<String>) -> (name: Option<String>)
    ensures
        text::opt_text(name) == entry_name(path@, content@, texts(locales@)),
{
    let filter = Some(locales.as_slice());
    let entry = freedesktop_desktop_entry::DesktopEntry::from_str(path, content, filter).ok()?;
    entry.name(locales).map(|name| name.into_owned())
}

/// `DesktopEntry::parse_exec` of freedesktop-desktop-entry, of the entry that
/// `DesktopEntry::from_str` decodes: what it says of an `Exec` value that it
/// does not take.
#[verifier::external_body]
fn decode_exec_problem(path: &str, content: &str, locales: &Vec<String>) -> (problem: Option<String>)
    ensures
        text::opt_text(problem) == exec_problem(path@, content@, texts(locales@)),
{
    let locales = Some(locales.as_slice());
    let entry = freedesktop_desktop_entry::DesktopEntry::from_str(path, content, locales).ok()?;
    entry.parse_exec().err().map(|problem| problem.to_string())
}

/// Whether a file says what the text of an entry says. A switch is on where
/// its value is `true`, and a list is a value split at its semicolons.
pub open spec fn says(
    file: DesktopFile,
    path: Seq<char>,
    content: Seq<char>,
    locales: Seq<Seq<char>>,
) -> bool {
    &&& text::opt_text(file.type_) == entry_value(path, content, locales, "Type"@)
    &&& text::opt_text(file.name) == entry_name(path, content, locales)
    &&& text::opt_text(file.exec_value) == entry_value(path, content, locales, "Exec"@)
    &&& text::opt_text(file.exec_problem) == exec_problem(path, content, locales)
    &&& text::opt_text(file.try_exec) == entry_value(path, content, locales, "TryExec"@)
    &&& text::opt_text(file.path) == entry_value(path, content, locales, "Path"@)
    &&& text::opt_text(file.icon) == entry_value(path, content, locales, "Icon"@)
    &&& file.hidden == (entry_value(path, content, locales, "Hidden"@) == Some("true"@))
    &&& file.no_display == (entry_value(path, content, locales, "NoDisplay"@) == Some("true"@))
    &&& file.terminal == (entry_value(path, content, locales, "Terminal"@) == Some("true"@))
    &&& opt_texts(file.only_show_in) == opt_pieces(
        entry_value(path, content, locales, "OnlyShowIn"@),
    )
    &&& opt_texts(file.not_show_in) == opt_pieces(
        entry_value(path, content, locales, "NotShowIn"@),
    )
}

/// The parts of an optional value between semicolons.
fn split_value(value: &Option<String>) -> (parts: Option<Vec<String>>)
    ensures
        opt_texts(parts) == opt_pieces(text::opt_text(*value)),
{
    match value {
        Some(list) => Some(split(list.as_str(), ';')),
        None => None,
    }
}

/// Decodes the text of an entry.
fn decode_entry(path: &str, content: &str, locales: &Vec<String>) -> (file: Option<DesktopFile>)
    ensures
        file is Some == entry_decodes(path@, content@, texts(locales@)),
        file matches Some(f) ==> says(f, path@, content@, texts(locales@)),
{
    let keys: Vec<String> = vec![
        "Type".to_owned(),
        "Exec".to_owned(),
        "TryExec".to_owned(),
        "Path".to_owned(),
        "Icon".to_owned(),
        "Hidden".to_owned(),
        "NoDisplay".to_owned(),
        "Terminal".to_owned(),
        "OnlyShowIn".to_owned(),
        "NotShowIn".to_owned(),
    ];
    match decode_values(path, content, locales, &keys) {
        None => None,
        Some(values) => Some(
            DesktopFile {
                type_: clone_opt(&values[0]),
                name: decode_name(path, content, locales),
                exec_value: clone_opt(&values[1]),
                exec_problem: decode_exec_problem(path, content, locales),
                try_exec: clone_opt(&values[2]),
                path: clone_opt(&values[3]),
                icon: clone_opt(&values[4]),
                hidden: is_text(&values[5], "true"),
                no_display: is_text(&values[6], "true"),
                terminal: is_text(&values[7], "true"),
                only_show_in: split_value(&values[8]),
                not_show_in: split_value(&values[9]),
            },
        ),
    }
}

/// Whether some desktop of a list is one of the present ones.
pub open spec fn meant_here(list: Seq<Seq<char>>, desktops: Seq<Seq<char>>) -> bool {
    exists|i: int|
        0 <= i < list.len() && (#[trigger] list[i]).len() > 0 && desktops.contains(list[i])
}

/// Whether some desktop of a list is one of the present ones.
fn is_meant_here(list: &Vec<String>, desktops: &Vec<String>) -> (meant: bool)
    ensures
        meant == meant_here(texts(list@), texts(desktops@)),
{
    let ghost all = texts(list@);
    let mut at: usize = 0;
    while at < list.len()
        invariant
            at <= list.len(),
            all == texts(list@),
            forall|i: int|
                0 <= i < at ==> !((#[trigger] all[i]).len() > 0 && texts(desktops@).contains(
                    all[i],
                )),
        decreases list.len() - at,
    {
        assert(all[at as int] == list@[at as int]@);
        if !list[at].as_str().is_empty() && list_has_text(desktops, list[at].as_str()) {
            return true;
        }
        at += 1;
    }
    false
}

/// Whether an entry is shown: it is an application with a window of its own,
/// is not hidden, and is meant for the present desktops.
pub open spec fn visible(file: DesktopFile, desktops: Seq<Seq<char>>) -> bool {
    &&& text::opt_text(file.type_) == Some("Application"@)
    &&& !file.hidden
    &&& !file.no_display
    &&& !file.terminal
    &&& file.exec_value is Some
    &&& file.only_show_in is Some ==> meant_here(texts(file.only_show_in->0@), desktops)
    &&& file.not_show_in is Some ==> !meant_here(texts(file.not_show_in->0@), desktops)
}

/// Whether an entry is shown.
pub fn is_visible(file: &DesktopFile, desktops: &Vec<String>) -> (shown: bool)
    ensures
        shown == visible(*file, texts(desktops@)),
{
    if !is_text(&file.type_, "Application") || file.hidden || file.no_display || file.terminal
        || file.exec_value.is_none() {
        return false;
    }
    if let Some(list) = &file.only_show_in {
        if !is_meant_here(list, desktops) {
            return false;
        }
    }
    match &file.not_show_in {
        Some(list) => !is_meant_here(list, desktops),
        None => true,
    }
}

/// The command line of an entry, or what is wrong with it.
pub open spec fn entry_command(file: DesktopFile, location: Seq<char>) -> Result<
    Seq<Seq<char>>,
    Seq<char>,
> {
    match file.exec_value {
        None => Err("desktop entry has no Exec value"@),
        Some(value) => match file.exec_problem {
            Some(problem) => Err(
                "desktop entry Exec parser rejected the value: "@ + problem@,
            ),
            None => command::command_line(
                value@,
                command::fields_of(file.name, location, file.icon),
            ),
        },
    }
}

/// The command line of an entry.
pub fn parse_exec_argv(file: &DesktopFile, location: &str) -> (result: Result<
    Vec<String>,
    ControllerError,
>)
    ensures
        match (result, entry_command(*file, location@)) {
            (Ok(argv), Ok(expected)) => texts(argv@) == expected,
            (Err(e), Err(message)) => error::final_error(e, ErrorCode::InvalidInput, message),
            _ => false,
        },
{
    let value = match &file.exec_value {
        Some(value) => value,
        None => {
            return Err(
                ControllerError::new(ErrorCode::InvalidInput, "desktop entry has no Exec value"),
            );
        },
    };
    if let Some(problem) = &file.exec_problem {
        return Err(
            error2(
                ErrorCode::InvalidInput,
                "desktop entry Exec parser rejected the value: ",
                problem.as_str(),
            ),
        );
    }
    expand_command(value.as_str(), &file.name, location, &file.icon)
}

/// An entry that can be launched once its needs are met: `try_exec` and the
/// first argument name programs, and `directory` is where to run.
#[derive(Debug)]
pub struct Candidate {
    pub name: String,
    pub argv: Vec<String>,
    pub try_exec: Option<String>,
    pub directory: Option<String>,
}

/// Whether a candidate is what an entry makes, or there is rightly none.
pub open spec fn right_candidate(
    candidate: Option<Candidate>,
    file: DesktopFile,
    location: Seq<char>,
    desktops: Seq<Seq<char>>,
) -> bool {
    let usable = visible(file, desktops) && file.name is Some && text::trimmed(
        file.name->0@,
    ).len() > 0 && entry_command(file, location) is Ok;
    match candidate {
        Some(c) => {
            &&& usable
            &&& c.name@ == file.name->0@
            &&& texts(c.argv@) == entry_command(file, location)->Ok_0
            &&& c.argv@.len() > 0
            &&& text::opt_text(c.try_exec) == text::opt_text(file.try_exec)
            &&& text::opt_text(c.directory) == text::opt_text(file.path)
        },
        None => !usable,
    }
}

/// The candidate that an entry makes.
pub fn make_candidate(file: DesktopFile, location: &str, desktops: &Vec<String>) -> (candidate:
    Option<Candidate>)
    ensures
        right_candidate(candidate, file, location@, texts(desktops@)),
{
    if !is_visible(&file, desktops) {
        return None;
    }
    let argv = match parse_exec_argv(&file, location) {
        Ok(argv) => argv,
        Err(_) => {
            return None;
        },
    };
    assert(texts(argv@).len() == argv@.len());
    let name = match file.name {
        Some(name) => name,
        None => {
            return None;
        },
    };
    let inner = trim(name.as_str());
    if inner.as_str().is_empty() {
        return None;
    }
    Some(Candidate { name, argv, try_exec: file.try_exec, directory: file.path })
}

/// Whether a candidate is what the text of an entry makes, or there is
/// rightly none.
pub open spec fn examined(
    candidate: Option<Candidate>,
    path: Seq<char>,
    content: Seq<char>,
    locales: Seq<Seq<char>>,
    desktops: Seq<Seq<char>>,
) -> bool {
    if !entry_decodes(path, content, locales) {
        candidate is None
    } else {
        exists|file: DesktopFile|
            says(file, path, content, locales) && #[trigger] right_candidate(
                candidate,
                file,
                path,
                desktops,
            )
    }
}

/// The candidate that the text of an entry makes.
pub fn examine_entry(
    path: &str,
    content: &str,
    locales: &Vec<String>,
    desktops: &Vec<String>,
) -> (candidate: Option<Candidate>)
    ensures
        examined(candidate, path@, content@, texts(locales@), texts(desktops@)),
{
    match decode_entry(path, content, locales) {
        Some(file) => make_candidate(file, path, desktops),
        None => None,
    }
}

/// Where to look for a program.
#[derive(Debug, Clone, Copy, PartialEq, Eq, Structural)]
pub enum ProgramSearch {
    /// At the absolute path itself.
    Itself,
    /// In the directories of the search path.
    Directories,
    /// Nowhere.
    Nowhere,
}

/// Where to look for a program: a bare name is looked for in the search
/// path, and a relative path is not looked for.
pub fn program_search(program: &str) -> (search: ProgramSearch)
    ensures
        search == (if program@.len() > 0 && program@[0] == '/' {
            ProgramSearch::Itself
        } else if program@.len() == 0 || program@.contains('/') {
            ProgramSearch::Nowhere
        } else {
            ProgramSearch::Directories
        }),
{
    if program.is_empty() {
        return ProgramSearch::Nowhere;
    }
    let characters = text::to_chars(program);
    if characters[0] == '/' {
        ProgramSearch::Itself
    } else if contains_char(program, '/') {
        ProgramSearch::Nowhere
    } else {
        ProgramSearch::Directories
    }
}

/// Whether a file can be run: it is a regular file that someone may execute.
pub fn is_executable(is_file: bool, mode: u32) -> (executable: bool)
    ensures
        executable == (is_file && mode & 0o111 != 0),
{
    is_file && mode & 0o111 != 0
}

/// An application that can be launched.
#[derive(Debug)]
pub struct ApplicationRecord {
    pub info: AppInfo,
    pub argv: Vec<String>,
    pub directory: Option<String>,
}

/// Applications as they are discovered. An identifier counts where it comes
/// first, whether or not its entry can be launched.
#[derive(Debug)]
pub struct Discovery {
    pub seen: Vec<String>,
    pub records: Vec<ApplicationRecord>,
}

/// What the machine has of the needs of a candidate.
#[derive(Debug, Clone, Copy, PartialEq, Eq, Structural)]
pub struct Availability {
    pub try_exec: bool,
    pub directory: bool,
    pub program: bool,
}

/// Whether the needs of a candidate are met.
pub open spec fn needs_met(candidate: Candidate, available: Availability) -> bool {
    &&& candidate.try_exec is Some ==> available.try_exec
    &&& candidate.directory is Some ==> available.directory
    &&& available.program
}

/// The identifiers of applications.
pub open spec fn record_ids(records: Seq<ApplicationRecord>) -> Seq<Seq<char>> {
    records.map_values(|record: ApplicationRecord| record.info.app_id@)
}

impl Discovery {
    /// Whether every application that was found has an identifier of its own,
    /// which was claimed.
    pub open spec fn well_formed(&self) -> bool {
        &&& record_ids(self.records@).no_duplicates()
        &&& forall|i: int|
            0 <= i < self.records@.len() ==> texts(self.seen@).contains(
                #[trigger] record_ids(self.records@)[i],
            )
    }

    /// Whether an identifier was claimed for an application that was not
    /// found yet.
    pub open spec fn claims(&self, app_id: Seq<char>) -> bool {
        texts(self.seen@).contains(app_id) && !record_ids(self.records@).contains(app_id)
    }

    /// Nothing was discovered yet.
    pub fn new() -> (discovery: Self)
        ensures
            discovery.well_formed(),
            discovery.seen@.len() == 0,
            discovery.records@.len() == 0,
    {
        Discovery { seen: Vec::new(), records: Vec::new() }
    }

    /// Claims an identifier, unless it was claimed before.
    pub fn claim(&mut self, app_id: &str) -> (claimed: bool)
        requires
            old(self).well_formed(),
        ensures
            final(self).well_formed(),
            claimed ==> final(self).claims(app_id@),
            claimed == !texts(old(self).seen@).contains(app_id@),
            final(self).records == old(self).records,
            texts(final(self).seen@) == (if claimed {
                texts(old(self).seen@).push(app_id@)
            } else {
                texts(old(self).seen@)
            }),
    {
        if list_has_text(&self.seen, app_id) {
            return false;
        }
        let ghost before = self.seen@;
        self.seen.push(app_id.to_owned());
        assert(texts(self.seen@) =~= texts(before).push(app_id@));
        proof {
            assert(texts(self.seen@)[before.len() as int] == app_id@);
            assert forall|i: int| 0 <= i < self.records@.len() implies texts(self.seen@).contains(
                #[trigger] record_ids(self.records@)[i],
            ) by {
                let at = texts(before).index_of(record_ids(self.records@)[i]);
                assert(texts(self.seen@)[at] == texts(before)[at]);
            }
            if record_ids(self.records@).contains(app_id@) {
                let i = record_ids(self.records@).index_of(app_id@);
                assert(texts(before).contains(record_ids(self.records@)[i]));
            }
        }
        true
    }

    /// Enlists a claimed application whose needs are met.
    pub fn enlist(&mut self, app_id: String, candidate: Candidate, available: Availability) -> (enlisted:
        bool)
        requires
            old(self).well_formed(),
            old(self).claims(app_id@),
        ensures
            final(self).well_formed(),
            enlisted == needs_met(candidate, available),
            final(self).seen == old(self).seen,
            if enlisted {
                &&& final(self).records@.len() == old(self).records@.len() + 1
                &&& final(self).records@.drop_last() == old(self).records@
                &&& final(self).records@.last().info.app_id == app_id
                &&& final(self).records@.last().info.name == candidate.name
                &&& final(self).records@.last().argv == candidate.argv
                &&& final(self).records@.last().directory == candidate.directory
            } else {
                final(self).records == old(self).records
            },
    {
        if candidate.try_exec.is_some() && !available.try_exec {
            return false;
        }
        if candidate.directory.is_some() && !available.directory {
            return false;
        }
        if !available.program {
            return false;
        }
        let ghost before = self.records@;
        self.records.push(
            ApplicationRecord {
                info: AppInfo { app_id, name: candidate.name },
                argv: candidate.argv,
                directory: candidate.directory,
            },
        );
        assert(self.records@.drop_last() =~= before);
        proof {
            let ids = record_ids(before);
            assert(record_ids(self.records@) =~= ids.push(app_id@));
            assert forall|i: int, j: int| 0 <= i < j < ids.len() + 1 implies ids.push(
                app_id@,
            )[i] != ids.push(app_id@)[j] by {
                if j == ids.len() {
                    assert(ids.contains(ids[i]));
                }
            }
        }
        true
    }
}

/// The path of a file relative to a directory, where the file lies in it.
pub uninterp spec fn relative_path(root: Seq<char>, path: Seq<char>) -> Option<Seq<char>>;

/// `std::path::Path::strip_prefix`, the rest of a path after a directory.
#[verifier::external_body]
fn strip_prefix(root: &str, path: &str) -> (rest: Option<String>)
    ensures
        text::opt_text(rest) == relative_path(root@, path@),
{
    let rest = std::path::Path::new(path).strip_prefix(root).ok()?;
    rest.to_str().map(str::to_owned)
}

/// The identifier of an entry at a relative path: without its extension, and
/// with dashes for the directories.
pub open spec fn relative_id(relative: Seq<char>) -> Option<Seq<char>> {
    match text::without_suffix(relative, ".desktop"@) {
        Some(value) => if value.len() > 0 {
            Some(text::replaced(value, '/', '-'))
        } else {
            None
        },
        None => None,
    }
}

/// The identifier of an entry at a relative path.
pub fn relative_file_id(relative: &str) -> (id: Option<String>)
    ensures
        text::opt_text(id) == relative_id(relative@),
{
    match strip_suffix(relative, ".desktop") {
        Some(value) => {
            if value.as_str().is_empty() {
                None
            } else {
                Some(replace_char(value.as_str(), '/', '-'))
            }
        },
        None => None,
    }
}

/// The identifier of an entry below a directory of applications.
pub fn desktop_file_id(application_root: &str, path: &str) -> (id: Option<String>)
    ensures
        text::opt_text(id) == (match relative_path(application_root@, path@) {
            Some(relative) => relative_id(relative),
            None => None,
        }),
{
    match strip_prefix(application_root, path) {
        Some(relative) => relative_file_id(relative.as_str()),
        None => None,
    }
}

/// Whether a text is the identifier of an entry as a launch asks for it.
pub open spec fn valid_app_id(app_id: Seq<char>) -> bool {
    &&& app_id.len() > 0
    &&& app_id == text::trimmed(app_id)
    &&& vstd::utf8::encode_utf8(app_id).len() <= 512
    &&& !app_id.contains('/')
    &&& !app_id.contains('\0')
}

/// Refuses a text that is no identifier of an entry.
pub fn validate_app_id(app_id: &str) -> (result: Result<String, ControllerError>)
    ensures
        match result {
            Ok(id) => valid_app_id(app_id@) && id@ == app_id@,
            Err(e) => !valid_app_id(app_id@) && error::final_error(
                e,
                ErrorCode::InvalidInput,
                "app_id must be an exact non-empty desktop-entry identifier without surrounding whitespace or path separators"@,
            ),
        },
{
    let inner = trim(app_id);
    if app_id.is_empty() || !same_text(app_id, inner.as_str()) || app_id.as_bytes().len() > 512
        || contains_char(app_id, '/') || contains_char(app_id, '\0') {
        return Err(
            ControllerError::new(
                ErrorCode::InvalidInput,
                "app_id must be an exact non-empty desktop-entry identifier without surrounding whitespace or path separators",
            ),
        );
    }
    Ok(app_id.to_owned())
}

/// The text that a listing looks for, where it looks for one.
pub open spec fn sought(request: ListAppsRequest) -> Option<Seq<char>> {
    match request.query {
        Some(query) => if text::trimmed(query@).len() > 0 {
            Some(text::lowercase(text::trimmed(query@)))
        } else {
            None
        },
        None => None,
    }
}

/// Whether an application is one that a listing asks for.
pub open spec fn wanted_app(info: AppInfo, allowlist: Allowlist, query: Option<Seq<char>>) -> bool {
    &&& allowlist.permits(info.app_id@)
    &&& query is Some ==> text::occurs(text::lowercase(info.app_id@), query->0) || text::occurs(
        text::lowercase(info.name@),
        query->0,
    )
}

/// The applications that a listing asks for, in the order of their discovery.
pub open spec fn wanted_apps(
    records: Seq<ApplicationRecord>,
    allowlist: Allowlist,
    query: Option<Seq<char>>,
) -> Seq<AppInfo>
    decreases records.len(),
{
    if records.len() == 0 {
        Seq::empty()
    } else {
        let rest = wanted_apps(records.drop_last(), allowlist, query);
        if wanted_app(records.last().info, allowlist, query) {
            rest.push(records.last().info)
        } else {
            rest
        }
    }
}

/// What applications are sorted by: the name but for case, then the identifier.
pub open spec fn app_keys(apps: Seq<AppInfo>) -> Seq<sort::Key> {
    apps.map_values(|info: AppInfo| (text::lowercase(info.name@), info.app_id@))
}

/// Whether a list has the same applications as another, in the order of their names.
pub open spec fn sorted_apps(list: Seq<AppInfo>, apps: Seq<AppInfo>) -> bool {
    exists|order: Seq<usize>|
        {
            &&& #[trigger] sort::is_order(order, apps.len() as int)
            &&& sort::in_key_order(app_keys(apps), order)
            &&& list.len() == apps.len()
            &&& forall|i: int| 0 <= i < list.len() ==> #[trigger] list[i] == apps[order[i] as int]
        }
}

/// A sorted list is sorted by name but for case, and then by identifier.
pub proof fn apps_are_sorted(list: Seq<AppInfo>, apps: Seq<AppInfo>, first: int, second: int)
    requires
        sorted_apps(list, apps),
        0 <= first <= second < list.len(),
    ensures
        sort::key_le(app_keys(list)[first], app_keys(list)[second]),
{
    let order = choose|order: Seq<usize>|
        {
            &&& #[trigger] sort::is_order(order, apps.len() as int)
            &&& sort::in_key_order(app_keys(apps), order)
            &&& list.len() == apps.len()
            &&& forall|i: int| 0 <= i < list.len() ==> #[trigger] list[i] == apps[order[i] as int]
        };
    assert(list[first] == apps[order[first] as int]);
    assert(list[second] == apps[order[second] as int]);
}

/// Every application that a listing asks for was discovered and is allowed.
proof fn lemma_wanted_apps(
    records: Seq<ApplicationRecord>,
    allowlist: Allowlist,
    query: Option<Seq<char>>,
    at: int,
)
    requires
        0 <= at < wanted_apps(records, allowlist, query).len(),
    ensures
        wanted_app(wanted_apps(records, allowlist, query)[at], allowlist, query),
        exists|i: int|
            0 <= i < records.len() && (#[trigger] records[i]).info == wanted_apps(
                records,
                allowlist,
                query,
            )[at],
    decreases records.len(),
{
    let rest = wanted_apps(records.drop_last(), allowlist, query);
    if at < rest.len() {
        lemma_wanted_apps(records.drop_last(), allowlist, query, at);
        let i = choose|i: int|
            0 <= i < records.len() - 1 && (#[trigger] records.drop_last()[i]).info == rest[at];
        assert(records[i].info == rest[at]);
    } else {
        assert(records[records.len() - 1].info == records.last().info);
    }
}

/// What a search by identifier finds, where there is such an application.
proof fn lemma_record_from(records: Seq<ApplicationRecord>, at: int, from: int)
    requires
        0 <= from <= at < records.len(),
    ensures
        record_from(records, records[at].info.app_id@, from) is Some,
    decreases records.len() - from,
{
    if records[from].info.app_id@ != records[at].info.app_id@ {
        lemma_record_from(records, at, from + 1);
    }
}

/// Every application that is listed can be launched by its identifier: it
/// was discovered, and it is allowed.
pub proof fn listed_apps_can_be_launched(
    list: Seq<AppInfo>,
    records: Seq<ApplicationRecord>,
    allowlist: Allowlist,
    query: Option<Seq<char>>,
    at: int,
)
    requires
        sorted_apps(list, wanted_apps(records, allowlist, query)),
        0 <= at < list.len(),
    ensures
        record_from(records, list[at].app_id@, 0) is Some,
        allowlist.permits(list[at].app_id@),
{
    let apps = wanted_apps(records, allowlist, query);
    let order = choose|order: Seq<usize>|
        {
            &&& #[trigger] sort::is_order(order, apps.len() as int)
            &&& sort::in_key_order(app_keys(apps), order)
            &&& list.len() == apps.len()
            &&& forall|i: int| 0 <= i < list.len() ==> #[trigger] list[i] == apps[order[i] as int]
        };
    let place = order[at] as int;
    assert(list[at] == apps[place]);
    lemma_wanted_apps(records, allowlist, query, place);
    let i = choose|i: int| 0 <= i < records.len() && (#[trigger] records[i]).info == apps[place];
    lemma_record_from(records, i, 0);
}

/// Lists the discovered applications that a request asks for and that are allowed.
pub fn list_apps(records: &Vec<ApplicationRecord>, allowlist: &Allowlist, request: &ListAppsRequest)
    -> (list: AppList)
    requires
        allowlist.well_formed(),
    ensures
        sorted_apps(list.apps@, wanted_apps(records@, *allowlist, sought(*request))),
{
    let query = match &request.query {
        Some(query) => {
            let inner = trim(query.as_str());
            if inner.as_str().is_empty() {
                None
            } else {
                Some(to_lowercase(inner.as_str()))
            }
        },
        None => None,
    };
    let ghost wanted = wanted_apps(records@, *allowlist, sought(*request));
    assert(text::opt_text(query) == sought(*request));
    let apps = filter_apps(records, allowlist, &query);
    let mut keys: Vec<(String, String)> = Vec::new();
    let mut at: usize = 0;
    while at < apps.len()
        invariant
            at <= apps.len(),
            sort::keys(keys@) == app_keys(apps@).take(at as int),
        decreases apps.len() - at,
    {
        let ghost before = keys@;
        keys.push((to_lowercase(apps[at].name.as_str()), apps[at].app_id.clone()));
        assert(sort::keys(keys@) =~= sort::keys(before).push(app_keys(apps@)[at as int]));
        assert(app_keys(apps@).take(at + 1) =~= app_keys(apps@).take(at as int).push(
            app_keys(apps@)[at as int],
        ));
        at += 1;
    }
    assert(app_keys(apps@).take(apps@.len() as int) =~= app_keys(apps@));
    let order = sorted_order(&keys);
    let mut sorted: Vec<AppInfo> = Vec::new();
    let mut at: usize = 0;
    while at < order.len()
        invariant
            at <= order.len(),
            sort::is_order(order@, apps@.len() as int),
            sorted@.len() == at,
            forall|i: int| 0 <= i < at ==> #[trigger] sorted@[i] == apps@[order@[i] as int],
        decreases order.len() - at,
    {
        assert(order@[at as int] < apps@.len());
        sorted.push(apps[order[at]].clone());
        at += 1;
    }
    assert(sort::is_order(order@, wanted.len() as int));
    AppList { apps: sorted }
}

/// The applications that a listing asks for.
fn filter_apps(records: &Vec<ApplicationRecord>, allowlist: &Allowlist, query: &Option<String>)
    -> (apps: Vec<AppInfo>)
    requires
        allowlist.well_formed(),
    ensures
        apps@ == wanted_apps(records@, *allowlist, text::opt_text(*query)),
{
    let mut apps: Vec<AppInfo> = Vec::new();
    let mut at: usize = 0;
    while at < records.len()
        invariant
            at <= records.len(),
            allowlist.well_formed(),
            apps@ == wanted_apps(records@.take(at as int), *allowlist, text::opt_text(*query)),
        decreases records.len() - at,
    {
        assert(records@.take(at + 1).drop_last() =~= records@.take(at as int));
        let info = &records[at].info;
        let found: bool = match query {
            Some(wanted) => contains_text(
                to_lowercase(info.app_id.as_str()).as_str(),
                wanted.as_str(),
            ) || contains_text(to_lowercase(info.name.as_str()).as_str(), wanted.as_str()),
            None => true,
        };
        if allowlist.is_allowed(info.app_id.as_str()) && found {
            apps.push(info.clone());
        }
        at += 1;
    }
    assert(records@.take(records@.len() as int) =~= records@);
    apps
}

/// The first application with an identifier, from a place on.
pub open spec fn record_from(records: Seq<ApplicationRecord>, app_id: Seq<char>, from: int) -> Option<
    int,
>
    decreases records.len() - from,
{
    if from >= records.len() {
        None
    } else if records[from].info.app_id@ == app_id {
        Some(from)
    } else {
        record_from(records, app_id, from + 1)
    }
}

/// The place of the application to launch.
pub fn resolve(records: &Vec<ApplicationRecord>, allowlist: &Allowlist, app_id: &str) -> (result:
    Result<usize, ControllerError>)
    requires
        allowlist.well_formed(),
    ensures
        match record_from(records@, app_id@, 0) {
            None => result is Err && error::final_error(
                result->Err_0,
                ErrorCode::InvalidInput,
                "application is not available: "@ + app_id@,
            ),
            Some(at) => if allowlist.permits(app_id@) {
                result is Ok && result->Ok_0 == at && 0 <= at < records@.len()
            } else {
                result is Err && error::final_error(
                    result->Err_0,
                    ErrorCode::AccessDenied,
                    "application is not allowed: "@ + app_id@,
                )
            },
        },
{
    let mut at: usize = 0;
    while at < records.len()
        invariant
            at <= records.len(),
            allowlist.well_formed(),
            record_from(records@, app_id@, 0) == record_from(records@, app_id@, at as int),
        decreases records.len() - at,
    {
        if same_text(records[at].info.app_id.as_str(), app_id) {
            return decide_launch(at, allowlist.is_allowed(app_id), app_id);
        }
        at += 1;
    }
    Err(error2(ErrorCode::InvalidInput, "application is not available: ", app_id))
}

/// Refuses to launch an application that is not allowed.
pub fn decide_launch(at: usize, allowed: bool, app_id: &str) -> (result: Result<
    usize,
    ControllerError,
>)
    ensures
        match result {
            Ok(place) => allowed && place == at,
            Err(e) => !allowed && error::final_error(
                e,
                ErrorCode::AccessDenied,
                "application is not allowed: "@ + app_id@,
            ),
        },
{
    if allowed {
        Ok(at)
    } else {
        Err(error2(ErrorCode::AccessDenied, "application is not allowed: ", app_id))
    }
}

/// Whether an error refuses a launch for the emergency stop.
pub open spec fn launch_stopped(e: ControllerError) -> bool {
    error::final_error(
        e,
        ErrorCode::EmergencyStop,
        "application launch is disabled because the emergency stop is latched"@,
    )
}

/// Refuses launches once the emergency stop is latched.
pub fn ensure_launch_allowed(stopped: bool) -> (result: Result<(), ControllerError>)
    ensures
        match result {
            Ok(()) => !stopped,
            Err(e) => stopped && launch_stopped(e),
        },
{
    if stopped {
        Err(
            ControllerError::new(
                ErrorCode::EmergencyStop,
                "application launch is disabled because the emergency stop is latched",
            ),
        )
    } else {
        Ok(())
    }
}

/// Whether a result is that of a checked launch.
pub open spec fn launch_checked(
    result: Result<String, ControllerError>,
    stopped: bool,
    request: LaunchAppRequest,
) -> bool {
    match result {
        Ok(id) => !stopped && valid_app_id(request.app_id@) && id@ == request.app_id@,
        Err(e) => if stopped {
            launch_stopped(e)
        } else {
            !valid_app_id(request.app_id@) && error::final_error(
                e,
                ErrorCode::InvalidInput,
                "app_id must be an exact non-empty desktop-entry identifier without surrounding whitespace or path separators"@,
            )
        },
    }
}

/// Checks a launch before anything is discovered.
pub fn check_launch(stopped: bool, request: &LaunchAppRequest) -> (result: Result<
    String,
    ControllerError,
>)
    ensures
        launch_checked(result, stopped, *request),
{
    match ensure_launch_allowed(stopped) {
        Ok(()) => validate_app_id(request.app_id.as_str()),
        Err(e) => Err(e),
    }
}

/// A program to spawn: without a shell, on a display, in a directory where
/// the entry names one.
#[derive(Debug)]
pub struct LaunchCommand {
    pub program: String,
    pub arguments: Vec<String>,
    pub display: String,
    pub directory: Option<String>,
}

/// Whether a command launches an application on a display.
pub open spec fn launches(
    command: LaunchCommand,
    record: ApplicationRecord,
    display: Seq<char>,
) -> bool {
    &&& record.argv@.len() > 0
    &&& command.program@ == texts(record.argv@)[0]
    &&& texts(command.arguments@) == texts(record.argv@).skip(1)
    &&& command.display@ == display
    &&& text::opt_text(command.directory) == text::opt_text(record.directory)
}

/// The command that launches an application.
pub fn launch_command(record: &ApplicationRecord, display: &str) -> (result: Result<
    LaunchCommand,
    ControllerError,
>)
    ensures
        match result {
            Ok(command) => launches(command, *record, display@),
            Err(e) => record.argv@.len() == 0 && error::final_error(
                e,
                ErrorCode::Internal,
                "application command is empty"@,
            ),
        },
{
    if record.argv.len() == 0 {
        return Err(ControllerError::new(ErrorCode::Internal, "application command is empty"));
    }
    let ghost all = texts(record.argv@);
    let mut arguments: Vec<String> = Vec::new();
    let mut at: usize = 1;
    assert(texts(arguments@) =~= all.subrange(1, 1));
    while at < record.argv.len()
        invariant
            1 <= at <= record.argv.len(),
            all == texts(record.argv@),
            texts(arguments@) == all.subrange(1, at as int),
        decreases record.argv.len() - at,
    {
        let ghost before = arguments@;
        arguments.push(record.argv[at].clone());
        assert(texts(arguments@) =~= texts(before).push(all[at as int]));
        assert(all.subrange(1, at + 1) =~= all.subrange(1, at as int).push(all[at as int]));
        at += 1;
    }
    assert(all.subrange(1, all.len() as int) =~= all.skip(1));
    Ok(
        LaunchCommand {
            program: record.argv[0].clone(),
            arguments,
            display: display.to_owned(),
            directory: clone_opt(&record.directory),
        },
    )
}

/// The outcome of a spawned program, from its process number where it has one.
pub fn launched(record: &ApplicationRecord, spawned: Result<Option<u32>, String>) -> (result: Result<
    LaunchAppResult,
    ControllerError,
>)
    ensures
        match (result, spawned) {
            (Ok(done), Ok(Some(pid))) => done.launched && done.pid == pid && done.app_id
                == record.info.app_id && done.name == record.info.name,
            (Err(e), Ok(None)) => error::final_error(
                e,
                ErrorCode::Internal,
                "launched application "@ + record.info.app_id@
                    + " without a process identifier"@,
            ),
            (Err(e), Err(problem)) => error::final_error(
                e,
                ErrorCode::Internal,
                "could not launch application "@ + record.info.app_id@ + ": "@ + problem@,
            ),
            _ => false,
        },
{
    match spawned {
        Ok(Some(pid)) => Ok(
            LaunchAppResult {
                launched: true,
                app_id: record.info.app_id.clone(),
                name: record.info.name.clone(),
                pid,
            },
        ),
        Ok(None) => Err(
            error::error3(
                ErrorCode::Internal,
                "launched application ",
                record.info.app_id.as_str(),
                " without a process identifier",
            ),
        ),
        Err(problem) => {
            let start = "could not launch application ".to_owned().concat(
                record.info.app_id.as_str(),
            ).concat(": ");
            Err(error2(ErrorCode::Internal, start.as_str(), problem.as_str()))
        },
    }
}

/// What a launcher with an allowlist offers.
pub fn application_capabilities(allowlist: &Allowlist) -> (capabilities: ApplicationCapabilities)
    requires
        allowlist.well_formed(),
    ensures
        capabilities.desktop_entry_launch,
        capabilities.terminal_entries_excluded,
        capabilities.allowlist_enabled == allowlist.restricts(),
{
    ApplicationCapabilities {
        desktop_entry_launch: true,
        terminal_entries_excluded: true,
        allowlist_enabled: allowlist.is_enabled(),
    }
}

/// The allowlist of a configuration.
pub fn application_allowlist(config: &ApplicationConfig) -> (result: Result<
    Allowlist,
    ControllerError,
>)
    ensures
        match (
            result,
            crate::allowlist::allowlist_problem(
                texts(config.allow_apps@),
                "invalid application allowlist glob "@,
                "build application allowlist: "@,
            ),
        ) {
            (Ok(allowlist), None) => allowlist.well_formed() && allowlist.patterns() == texts(
                config.allow_apps@,
            ),
            (Err(e), Some(message)) => error::final_error(e, ErrorCode::InvalidInput, message),
            _ => false,
        },
{
    Allowlist::build(
        &config.allow_apps,
        "invalid application allowlist glob ",
        "build application allowlist: ",
    )
}

/// The parts of a locale: its language and country, and its modifier.
pub open spec fn locale_parts(locale: Seq<char>) -> (Seq<char>, Seq<char>) {
    let (plain, modifier) = match text::split_first(locale, '@') {
        Some(parts) => parts,
        None => (locale, Seq::empty()),
    };
    match text::split_first(plain, '.') {
        Some((base, _)) => (base, modifier),
        None => (plain, modifier),
    }
}

/// A name with a modifier.
pub open spec fn with_modifier(name: Seq<char>, modifier: Seq<char>) -> Seq<char> {
    name + "@"@ + modifier
}

/// A name, after the same name with a modifier where there is one.
pub open spec fn both_forms(name: Seq<char>, modifier: Seq<char>) -> Seq<Seq<char>> {
    if modifier.len() > 0 {
        seq![with_modifier(name, modifier), name]
    } else {
        seq![name]
    }
}

/// The locales that stand in for a locale, the closest first.
pub open spec fn fallbacks(locale: Seq<char>) -> Seq<Seq<char>> {
    let (base, modifier) = locale_parts(locale);
    if base == "C"@ || base == "POSIX"@ {
        Seq::empty()
    } else {
        match text::split_first(base, '_') {
            Some((language, _)) => both_forms(base, modifier) + both_forms(language, modifier),
            None => both_forms(base, modifier),
        }
    }
}

/// Adds both forms of a name to a list.
fn push_forms(list: &mut Vec<String>, name: &str, modifier: &str)
    ensures
        texts(final(list)@) == texts(old(list)@) + both_forms(name@, modifier@),
{
    if !modifier.is_empty() {
        list.push(name.to_owned().concat("@").concat(modifier));
    }
    list.push(name.to_owned());
    assert(texts(list@) =~= texts(old(list)@) + both_forms(name@, modifier@));
}

/// The locales that stand in for a locale.
pub fn locale_candidates(locale: &str) -> (candidates: Vec<String>)
    ensures
        texts(candidates@) == fallbacks(locale@),
{
    let (plain, modifier) = match split_once(locale, '@') {
        Some(parts) => parts,
        None => (locale.to_owned(), String::new()),
    };
    assert(text::split_first(locale@, '@') is None ==> modifier@ =~= Seq::empty());
    let base = match split_once(plain.as_str(), '.') {
        Some((base, _)) => base,
        None => plain,
    };
    let mut candidates: Vec<String> = Vec::new();
    assert(texts(candidates@) =~= Seq::empty());
    if same_text(base.as_str(), "C") || same_text(base.as_str(), "POSIX") {
        return candidates;
    }
    push_forms(&mut candidates, base.as_str(), modifier.as_str());
    assert(texts(candidates@) =~= both_forms(base@, modifier@));
    if let Some((language, _)) = split_once(base.as_str(), '_') {
        push_forms(&mut candidates, language.as_str(), modifier.as_str());
    }
    candidates
}

/// The locale of a session: of the environment's three settings, the first
/// that is there and not empty.
pub open spec fn session_locale(
    lc_all: Option<Seq<char>>,
    lc_messages: Option<Seq<char>>,
    lang: Option<Seq<char>>,
) -> Option<Seq<char>> {
    if lc_all is Some && lc_all->0.len() > 0 {
        lc_all
    } else if lc_messages is Some && lc_messages->0.len() > 0 {
        lc_messages
    } else if lang is Some && lang->0.len() > 0 {
        lang
    } else {
        None
    }
}

/// The locales of a session.
pub fn session_locales(lc_all: Option<String>, lc_messages: Option<String>, lang: Option<String>)
    -> (locales: Vec<String>)
    ensures
        texts(locales@) == (match session_locale(
            text::opt_text(lc_all),
            text::opt_text(lc_messages),
            text::opt_text(lang),
        ) {
            Some(locale) => fallbacks(locale),
            None => Seq::empty(),
        }),
{
    if let Some(locale) = lc_all {
        if !locale.as_str().is_empty() {
            return locale_candidates(locale.as_str());
        }
    }
    if let Some(locale) = lc_messages {
        if !locale.as_str().is_empty() {
            return locale_candidates(locale.as_str());
        }
    }
    if let Some(locale) = lang {
        if !locale.as_str().is_empty() {
            return locale_candidates(locale.as_str());
        }
    }
    let none: Vec<String> = Vec::new();
    assert(texts(none@) =~= Seq::empty());
    none
}

/// The parts of a list that are not empty.
pub open spec fn nonempty_parts(parts: Seq<Seq<char>>) -> Seq<Seq<char>>
    decreases parts.len(),
{
    if parts.len() == 0 {
        Seq::empty()
    } else if parts.last().len() > 0 {
        nonempty_parts(parts.drop_last()).push(parts.last())
    } else {
        nonempty_parts(parts.drop_last())
    }
}

/// The desktops of a session, from a list with colons.
pub fn current_desktops(value: &str) -> (desktops: Vec<String>)
    ensures
        texts(desktops@) == nonempty_parts(text::pieces(value@, ':')),
{
    let parts = split(value, ':');
    let ghost all = texts(parts@);
    let mut desktops: Vec<String> = Vec::new();
    let mut at: usize = 0;
    assert(texts(desktops@) =~= Seq::empty());
    while at < parts.len()
        invariant
            at <= parts.len(),
            all == texts(parts@),
            texts(desktops@) == nonempty_parts(all.take(at as int)),
        decreases parts.len() - at,
    {
        assert(all.take(at + 1).drop_last() =~= all.take(at as int));
        assert(all.take(at + 1).last() == parts@[at as int]@);
        if !parts[at].as_str().is_empty() {
            let ghost before = desktops@;
            desktops.push(parts[at].clone());
            assert(texts(desktops@) =~= texts(before).push(parts@[at as int]@));
        }
        at += 1;
    }
    assert(all.take(all.len() as int) =~= all);
    desktops
}

/// An entry is shown exactly where it is an application with a command, neither
/// hidden nor for a terminal, that a list to show it in names a present desktop
/// of, and a list not to show it in does not.
pub proof fn shown_entries_are_meant_for_the_desktop(
    file: DesktopFile,
    desktops: Vec<String>,
    shown: bool,
    here: spec_fn(Seq<char>) -> bool,
)
    requires
        call_ensures(is_visible, (&file, &desktops), shown),
        here == (|name: Seq<char>|
            name.len() > 0 && exists|d: int|
                0 <= d < desktops@.len() && (#[trigger] desktops@[d])@ == name),
    ensures
        shown <==> {
            &&& file.type_ is Some && file.type_->0@ == "Application"@
            &&& file.exec_value is Some
            &&& !file.hidden
            &&& !file.no_display
            &&& !file.terminal
            &&& file.only_show_in is Some ==> exists|i: int|
                0 <= i < file.only_show_in->0@.len() && here((#[trigger] file.only_show_in->0@[i])@)
            &&& file.not_show_in is Some ==> forall|i: int|
                0 <= i < file.not_show_in->0@.len() ==> !here(
                    (#[trigger] file.not_show_in->0@[i])@,
                )
        },
{
    if file.only_show_in is Some {
        lemma_meant(file.only_show_in->0, desktops, here);
    }
    if file.not_show_in is Some {
        lemma_meant(file.not_show_in->0, desktops, here);
    }
}

/// A list is meant for the present desktops where it names one.
proof fn lemma_meant(list: Vec<String>, desktops: Vec<String>, here: spec_fn(Seq<char>) -> bool)
    requires
        here == (|name: Seq<char>|
            name.len() > 0 && exists|d: int|
                0 <= d < desktops@.len() && (#[trigger] desktops@[d])@ == name),
    ensures
        meant_here(texts(list@), texts(desktops@)) <==> exists|i: int|
            0 <= i < list@.len() && here((#[trigger] list@[i])@),
{
    let all = texts(list@);
    let present = texts(desktops@);
    assert forall|name: Seq<char>| #[trigger] here(name) <==> name.len() > 0 && present.contains(
        name,
    ) by {
        if present.contains(name) {
            let d = present.index_of(name);
            assert(desktops@[d]@ == name);
        }
        if here(name) {
            let d = choose|d: int| 0 <= d < desktops@.len() && (#[trigger] desktops@[d])@ == name;
            assert(present[d] == name);
        }
    }
    if meant_here(all, present) {
        let i = choose|i: int|
            0 <= i < all.len() && (#[trigger] all[i]).len() > 0 && present.contains(all[i]);
        assert(here(list@[i]@));
    }
    if exists|i: int| 0 <= i < list@.len() && here((#[trigger] list@[i])@) {
        let i = choose|i: int| 0 <= i < list@.len() && here((#[trigger] list@[i])@);
        assert(all[i] == list@[i]@);
        assert(present.contains(all[i]));
    }
}

/// An entry can be launched exactly where it is shown, has a name that is not
/// blank and a command line; it is launched by that command line, under that
/// name, in the directory that it names.
pub proof fn candidates_say_what_their_entry_says(
    file: DesktopFile,
    location: &str,
    desktops: Vec<String>,
    candidate: Option<Candidate>,
    shown: bool,
    line: Result<Vec<String>, ControllerError>,
)
    requires
        call_ensures(make_candidate, (file, location, &desktops), candidate),
        call_ensures(is_visible, (&file, &desktops), shown),
        call_ensures(parse_exec_argv, (&file, location), line),
    ensures
        candidate is Some <==> shown && line is Ok && file.name is Some && text::trimmed(
            file.name->0@,
        ).len() > 0,
        candidate matches Some(c) ==> {
            &&& c.name@ == file.name->0@
            &&& texts(c.argv@) == texts(line->Ok_0@)
            &&& c.argv@.len() > 0
            &&& file.try_exec is None ==> c.try_exec is None
            &&& file.try_exec is Some ==> c.try_exec is Some && c.try_exec->0@ == file.try_exec->0@
            &&& file.path is None ==> c.directory is None
            &&& file.path is Some ==> c.directory is Some && c.directory->0@ == file.path->0@
        },
{
}

/// An entry without a command, or with one that cannot be read, has no command
/// line; any other has that of its value, its own name, place and icon.
pub proof fn command_lines_come_from_the_entry(
    file: DesktopFile,
    location: &str,
    exec: &str,
    line: Result<Vec<String>, ControllerError>,
    expanded: Result<Vec<String>, ControllerError>,
)
    requires
        call_ensures(parse_exec_argv, (&file, location), line),
        file.exec_value is Some ==> exec@ == file.exec_value->0@,
        call_ensures(expand_command, (exec, &file.name, location, &file.icon), expanded),
    ensures
        line is Ok <==> file.exec_value is Some && file.exec_problem is None && expanded is Ok,
        line is Ok ==> texts(line->Ok_0@) == texts(expanded->Ok_0@),
        line is Err ==> line->Err_0.code == ErrorCode::InvalidInput,
{
}

/// A program at an absolute path is looked for there, a bare name in the
/// directories of the search path, and anything else nowhere.
pub proof fn programs_are_looked_for_where_they_can_be(
    program: &str,
    search: ProgramSearch,
    is_file: bool,
    mode: u32,
    executable: bool,
)
    requires
        call_ensures(program_search, (program,), search),
        call_ensures(is_executable, (is_file, mode), executable),
    ensures
        program@.len() > 0 && program@[0] == '/' ==> search is Itself,
        program@.len() > 0 && !program@.contains('/') ==> search is Directories,
        program@.len() == 0 ==> search is Nowhere,
        program@.contains('/') && program@[0] != '/' ==> search is Nowhere,
        executable ==> is_file,
        mode == 0o755 ==> (executable <==> is_file),
        mode == 0o644 ==> !executable,
        (mode & 0o111) == 0 ==> !executable,
        (mode & 0o111) != 0 ==> (executable <==> is_file),
{
    assert(0o755u32 & 0o111 != 0) by (bit_vector);
    assert(0o644u32 & 0o111 == 0) by (bit_vector);
}

/// The first entry with an identifier claims it, and no other does.
pub proof fn identifiers_are_claimed_once(discovery: &mut Discovery, app_id: &str, claimed: bool, at: int)
    requires
        call_ensures(Discovery::claim, (discovery, app_id), claimed),
    ensures
        0 <= at < old(discovery).seen@.len() && old(discovery).seen@[at]@ == app_id@ ==> !claimed,
        (forall|i: int|
            0 <= i < old(discovery).seen@.len() ==> (#[trigger] old(discovery).seen@[i])@
                != app_id@) ==> claimed,
        exists|i: int|
            0 <= i < final(discovery).seen@.len() && (#[trigger] final(discovery).seen@[i])@
                == app_id@,
        final(discovery).records == old(discovery).records,
{
    let seen = texts(old(discovery).seen@);
    let after = texts(final(discovery).seen@);
    if 0 <= at < old(discovery).seen@.len() && old(discovery).seen@[at]@ == app_id@ {
        assert(seen[at] == app_id@);
    }
    if seen.contains(app_id@) {
        let i = seen.index_of(app_id@);
        assert(old(discovery).seen@[i]@ == app_id@);
    }
    let last = if claimed {
        seen.len() as int
    } else {
        seen.index_of(app_id@)
    };
    assert(after[last] == app_id@);
    assert(after.len() == final(discovery).seen@.len());
    assert(final(discovery).seen@[last]@ == app_id@);
}

/// An application is found exactly where the machine has its program, and what
/// else the entry asks for: the program to try, and the directory.
pub proof fn applications_are_found_where_they_can_run(
    discovery: &mut Discovery,
    app_id: String,
    candidate: Candidate,
    available: Availability,
    enlisted: bool,
)
    requires
        call_ensures(Discovery::enlist, (discovery, app_id, candidate, available), enlisted),
    ensures
        enlisted <==> available.program && (candidate.try_exec is None || available.try_exec) && (
        candidate.directory is None || available.directory),
        !enlisted ==> final(discovery).records == old(discovery).records,
        enlisted ==> {
            let added = final(discovery).records@.last();
            &&& final(discovery).records@ == old(discovery).records@.push(added)
            &&& added.info.app_id == app_id
            &&& added.info.name == candidate.name
            &&& added.argv == candidate.argv
            &&& added.directory == candidate.directory
        },
{
    if enlisted {
        assert(final(discovery).records@ =~= old(discovery).records@.push(
            final(discovery).records@.last(),
        ));
    }
}

/// The identifier of an entry is its path without the extension, with a dash
/// for every slash and every other character as it is.
pub proof fn identifiers_are_paths_with_dashes(relative: &str, id: Option<String>, at: int)
    requires
        call_ensures(relative_file_id, (relative,), id),
    ensures
        id is Some <==> relative@.len() > ".desktop"@.len() && relative@.skip(
            relative@.len() - ".desktop"@.len(),
        ) == ".desktop"@,
        id matches Some(found) ==> {
            &&& found@.len() == relative@.len() - ".desktop"@.len()
            &&& 0 <= at < found@.len() && relative@[at] == '/' ==> found@[at] == '-'
            &&& 0 <= at < found@.len() && relative@[at] != '/' ==> found@[at] == relative@[at]
        },
{
}

/// A launch is refused for the emergency stop before anything else, and else
/// exactly where its identifier is empty, has white space around it, is longer
/// than 512 bytes or holds a slash or a zero; it is taken as it is.
pub proof fn launches_need_an_identifier_and_no_stop(
    stopped: bool,
    request: LaunchAppRequest,
    result: Result<String, ControllerError>,
)
    requires
        call_ensures(check_launch, (stopped, &request), result),
    ensures
        ({
            let id = request.app_id@;
            &&& stopped ==> result is Err && result->Err_0.code == ErrorCode::EmergencyStop
            &&& !stopped ==> (result is Ok <==> id.len() > 0 && text::trimmed(id) == id
                && vstd::utf8::encode_utf8(id).len() <= 512 && !id.contains('/') && !id.contains(
                '\0',
            ))
            &&& !stopped && result is Err ==> result->Err_0.code == ErrorCode::InvalidInput
            &&& result is Ok ==> result->Ok_0@ == id
        }),
{
}

/// A listing has every discovered application that is allowed and has the
/// sought text in its identifier or its name, but for case, as often as it was
/// discovered, and no other.
pub proof fn listings_have_every_wanted_application(
    records: Vec<ApplicationRecord>,
    allowlist: Allowlist,
    request: ListAppsRequest,
    list: AppList,
    wanted: spec_fn(AppInfo) -> bool,
)
    requires
        call_ensures(list_apps, (&records, &allowlist, &request), list),
        wanted == (|info: AppInfo|
            {
                let all = request.query is None || text::trimmed(request.query->0@).len() == 0;
                let query = text::lowercase(text::trimmed(request.query->0@));
                allowlist.permits(info.app_id@) && (all || text::occurs(
                    text::lowercase(info.app_id@),
                    query,
                ) || text::occurs(text::lowercase(info.name@), query))
            }),
    ensures
        list.apps@.to_multiset() == records@.map_values(
            |record: ApplicationRecord| record.info,
        ).filter(wanted).to_multiset(),
{
    let apps = wanted_apps(records@, allowlist, sought(request));
    assert forall|info: AppInfo| #[trigger] wanted_app(info, allowlist, sought(request)) == wanted(
        info,
    ) by {}
    lemma_wanted_filter(records@, allowlist, sought(request), wanted);
    lemma_sorted_multiset(list.apps@, apps);
}

/// The wanted applications are those that a filter keeps.
proof fn lemma_wanted_filter(
    records: Seq<ApplicationRecord>,
    allowlist: Allowlist,
    query: Option<Seq<char>>,
    wanted: spec_fn(AppInfo) -> bool,
)
    requires
        forall|info: AppInfo| #[trigger]
            wanted_app(info, allowlist, query) == wanted(info),
    ensures
        wanted_apps(records, allowlist, query) == records.map_values(
            |record: ApplicationRecord| record.info,
        ).filter(wanted),
    decreases records.len(),
{
    reveal(Seq::filter);
    let infos = records.map_values(|record: ApplicationRecord| record.info);
    if records.len() > 0 {
        lemma_wanted_filter(records.drop_last(), allowlist, query, wanted);
        assert(infos.drop_last() =~= records.drop_last().map_values(
            |record: ApplicationRecord| record.info,
        ));
        assert(wanted_app(infos.last(), allowlist, query) == wanted(infos.last()));
    }
}

/// A sorted list has the same applications, as often as before.
proof fn lemma_sorted_multiset(list: Seq<AppInfo>, apps: Seq<AppInfo>)
    requires
        sorted_apps(list, apps),
    ensures
        list.to_multiset() == apps.to_multiset(),
{
    let order = choose|order: Seq<usize>|
        {
            &&& #[trigger] sort::is_order(order, apps.len() as int)
            &&& sort::in_key_order(app_keys(apps), order)
            &&& list.len() == apps.len()
            &&& forall|i: int| 0 <= i < list.len() ==> #[trigger] list[i] == apps[order[i] as int]
        };
    lemma_permuted(list, apps, order);
}

/// What is taken from every place of a sequence once is the same, as often.
proof fn lemma_permuted(list: Seq<AppInfo>, apps: Seq<AppInfo>, order: Seq<usize>)
    requires
        sort::is_order(order, apps.len() as int),
        list.len() == apps.len(),
        forall|i: int| 0 <= i < list.len() ==> #[trigger] list[i] == apps[order[i] as int],
    ensures
        list.to_multiset() == apps.to_multiset(),
    decreases apps.len(),
{
    if apps.len() > 0 {
        let end = apps.len() - 1;
        sort::lemma_every_place(order, apps.len() as int, end);
        let at = choose|i: int| 0 <= i < order.len() && (#[trigger] order[i]) == end;
        let fewer = order.remove(at);
        let rest = list.remove(at);
        assert forall|i: int| 0 <= i < fewer.len() implies (#[trigger] fewer[i]) < end by {
            let j = if i < at {
                i
            } else {
                i + 1
            };
            assert(fewer[i] == order[j]);
            assert(order[j] != order[at]);
        }
        assert(fewer.no_duplicates()) by {
            assert forall|i: int, j: int| 0 <= i < j < fewer.len() implies fewer[i]
                != fewer[j] by {
                let a = if i < at {
                    i
                } else {
                    i + 1
                };
                let b = if j < at {
                    j
                } else {
                    j + 1
                };
                assert(fewer[i] == order[a] && fewer[j] == order[b]);
            }
        }
        assert forall|i: int| 0 <= i < rest.len() implies #[trigger] rest[i]
            == apps.drop_last()[fewer[i] as int] by {
            let j = if i < at {
                i
            } else {
                i + 1
            };
            assert(fewer[i] == order[j] && rest[i] == list[j]);
            assert(order[j] != order[at]);
        }
        lemma_permuted(rest, apps.drop_last(), fewer);
        vstd::seq_lib::to_multiset_remove(list, at);
        list.to_multiset_ensures();
        assert(list.contains(list[at]));
        assert(list.to_multiset() =~= rest.to_multiset().insert(list[at]));
        assert(apps =~= apps.drop_last().push(apps.last()));
        vstd::seq_lib::to_multiset_build(apps.drop_last(), apps.last());
        assert(list[at] == apps.last());
    } else {
        assert(list =~= apps);
    }
}

/// A listing is in the order of the names but for case, and between equal names
/// in the order of the identifiers.
pub proof fn listings_are_in_the_order_of_their_names(
    records: Vec<ApplicationRecord>,
    allowlist: Allowlist,
    request: ListAppsRequest,
    list: AppList,
    first: int,
    second: int,
)
    requires
        call_ensures(list_apps, (&records, &allowlist, &request), list),
        0 <= first < second < list.apps@.len(),
    ensures
        ({
            let a = list.apps@[first];
            let b = list.apps@[second];
            &&& text::text_le(text::lowercase(a.name@), text::lowercase(b.name@))
            &&& text::lowercase(a.name@) == text::lowercase(b.name@) ==> text::text_le(
                a.app_id@,
                b.app_id@,
            )
        }),
{
    apps_are_sorted(
        list.apps@,
        wanted_apps(records@, allowlist, sought(request)),
        first,
        second,
    );
    let name = text::lowercase(list.apps@[first].name@);
    text::lemma_text_le_total(name, name);
}

/// The application to launch is the first with the identifier, where it is
/// allowed. One that was not found is reported before one that is not allowed.
pub proof fn applications_are_launched_by_identifier(
    records: Vec<ApplicationRecord>,
    allowlist: Allowlist,
    app_id: &str,
    result: Result<usize, ControllerError>,
    at: int,
)
    requires
        call_ensures(resolve, (&records, &allowlist, app_id), result),
    ensures
        0 <= at < records@.len() && records@[at].info.app_id@ == app_id@ && (forall|i: int|
            0 <= i < at ==> (#[trigger] records@[i]).info.app_id@ != app_id@) ==> {
            &&& allowlist.permits(app_id@) ==> result is Ok && result->Ok_0 == at
            &&& !allowlist.permits(app_id@) ==> result is Err && result->Err_0.code
                == ErrorCode::AccessDenied
        },
        (forall|i: int|
            0 <= i < records@.len() ==> (#[trigger] records@[i]).info.app_id@ != app_id@)
            ==> result is Err && result->Err_0.code == ErrorCode::InvalidInput,
{
    lemma_first_record(records@, app_id@, 0, at);
}

/// Where a search by identifier ends.
proof fn lemma_first_record(
    records: Seq<ApplicationRecord>,
    app_id: Seq<char>,
    from: int,
    at: int,
)
    requires
        0 <= from,
    ensures
        from <= at < records.len() && records[at].info.app_id@ == app_id && (forall|i: int|
            from <= i < at ==> (#[trigger] records[i]).info.app_id@ != app_id) ==> record_from(
            records,
            app_id,
            from,
        ) == Some(at),
        (forall|i: int|
            from <= i < records.len() ==> (#[trigger] records[i]).info.app_id@ != app_id)
            ==> record_from(records, app_id, from) is None,
    decreases records.len() - from,
{
    if from < records.len() && records[from].info.app_id@ != app_id {
        lemma_first_record(records, app_id, from + 1, at);
    }
}

/// An application is spawned by the first word of its command line with all the
/// others as arguments, in order, on the display and in its own directory.
pub proof fn applications_are_spawned_by_their_command_line(
    record: ApplicationRecord,
    display: &str,
    result: Result<LaunchCommand, ControllerError>,
    at: int,
)
    requires
        call_ensures(launch_command, (&record, display), result),
    ensures
        result is Ok <==> record.argv@.len() > 0,
        result matches Ok(command) ==> {
            &&& command.program@ == record.argv@[0]@
            &&& command.arguments@.len() == record.argv@.len() - 1
            &&& 0 <= at < command.arguments@.len() ==> command.arguments@[at]@ == record.argv@[at
                + 1]@
            &&& command.display@ == display@
            &&& record.directory is None ==> command.directory is None
            &&& record.directory is Some ==> command.directory is Some && command.directory->0@
                == record.directory->0@
        },
{
    if let Ok(command) = result {
        assert(texts(command.arguments@).len() == command.arguments@.len());
        assert(texts(record.argv@).len() == record.argv@.len());
        if 0 <= at < command.arguments@.len() {
            assert(texts(command.arguments@)[at] == texts(record.argv@)[at + 1]);
        }
    }
}

/// A launch has succeeded exactly where the program has a process number, which
/// is handed back with the application's identifier and name.
pub proof fn launches_hand_back_the_process(
    record: ApplicationRecord,
    spawned: Result<Option<u32>, String>,
    result: Result<LaunchAppResult, ControllerError>,
)
    requires
        call_ensures(launched, (&record, spawned), result),
    ensures
        result is Ok <==> spawned is Ok && spawned->Ok_0 is Some,
        result matches Ok(done) ==> done.launched && done.pid == spawned->Ok_0->0 && done.app_id
            == record.info.app_id && done.name == record.info.name,
        result is Err ==> result->Err_0.code == ErrorCode::Internal && !result->Err_0.retryable,
{
}

/// A locale with a country and a modifier is stood in for by its language and
/// country and by its language alone, each first with the modifier and then
/// without, whatever its encoding is.
pub proof fn locales_fall_back_to_their_language(
    language: Seq<char>,
    country: Seq<char>,
    encoding: Seq<char>,
    modifier: Seq<char>,
    locale: &str,
    candidates: Vec<String>,
)
    requires
        call_ensures(locale_candidates, (locale,), candidates),
        locale@ == language + seq!['_'] + country + seq!['.'] + encoding + seq!['@'] + modifier,
        modifier.len() > 0,
        forall|i: int|
            0 <= i < language.len() ==> {
                let c = #[trigger] language[i];
                c != '_' && c != '.' && c != '@'
            },
        forall|i: int|
            0 <= i < country.len() ==> {
                let c = #[trigger] country[i];
                c != '.' && c != '@'
            },
        !encoding.contains('@'),
    ensures
        texts(candidates@) == seq![
            language + seq!['_'] + country + seq!['@'] + modifier,
            language + seq!['_'] + country,
            language + seq!['@'] + modifier,
            language,
        ],
{
    let base = language + seq!['_'] + country;
    let plain = base + seq!['.'] + encoding;
    assert(locale@ =~= plain + seq!['@'] + modifier);
    assert forall|i: int| 0 <= i < plain.len() implies plain[i] != '@' by {
        if i < language.len() {
            assert(plain[i] == language[i]);
        } else if language.len() < i < base.len() {
            assert(plain[i] == country[i - language.len() - 1]);
        } else if i > base.len() {
            assert(plain[i] == encoding[i - base.len() - 1]);
            assert(encoding.contains(plain[i]));
        }
    }
    text::lemma_first_index(locale@, '@', plain.len() as int);
    assert(locale@.take(plain.len() as int) =~= plain);
    assert(locale@.skip(plain.len() as int + 1) =~= modifier);
    assert forall|i: int| 0 <= i < base.len() implies base[i] != '.' by {
        if i < language.len() {
            assert(base[i] == language[i]);
        } else if i > language.len() {
            assert(base[i] == country[i - language.len() - 1]);
        }
    }
    text::lemma_first_index(plain, '.', base.len() as int);
    assert(plain.take(base.len() as int) =~= base);
    assert forall|i: int| 0 <= i < language.len() implies base[i] != '_' by {
        assert(base[i] == language[i]);
    }
    text::lemma_first_index(base, '_', language.len() as int);
    assert(base.take(language.len() as int) =~= language);
    reveal_strlit("C");
    reveal_strlit("POSIX");
    reveal_strlit("@");
    assert(base[language.len() as int] == '_');
    assert("C"@.len() == 1 && "C"@[0] == 'C');
    assert(base != "POSIX"@);
    assert("@"@ =~= seq!['@']);
    assert(texts(candidates@) =~= both_forms(base, modifier) + both_forms(language, modifier));
}

/// A locale of a language alone stands for itself, and the plain ones for none.
pub proof fn plain_locales_have_no_fallback(locale: &str, candidates: Vec<String>)
    requires
        call_ensures(locale_candidates, (locale,), candidates),
        !locale@.contains('@'),
        !locale@.contains('.'),
        !locale@.contains('_'),
    ensures
        locale@ == "C"@ || locale@ == "POSIX"@ ==> candidates@.len() == 0,
        locale@ != "C"@ && locale@ != "POSIX"@ ==> texts(candidates@) == seq![locale@],
{
    assert forall|c: char| !locale@.contains(c) implies #[trigger] text::first_index(
        locale@,
        c,
    ) is None by {
        assert forall|i: int| 0 <= i < locale@.len() implies locale@[i] != c by {
            assert(locale@.contains(locale@[i]));
        }
        text::lemma_first_index(locale@, c, locale@.len() as int);
    }
    assert(text::first_index(locale@, '@') is None);
    assert(text::first_index(locale@, '.') is None);
    assert(text::first_index(locale@, '_') is None);
    assert(texts(candidates@).len() == candidates@.len());
}

/// The session's locale is that of the first setting that is not empty.
pub proof fn the_first_setting_counts(
    lc_all: Option<String>,
    lc_messages: Option<String>,
    lang: Option<String>,
    locales: Vec<String>,
    set: spec_fn(Option<String>) -> bool,
)
    requires
        call_ensures(session_locales, (lc_all, lc_messages, lang), locales),
        set == (|value: Option<String>| value is Some && value->0@.len() > 0),
    ensures
        set(lc_all) ==> texts(locales@) == fallbacks(lc_all->0@),
        !set(lc_all) && set(lc_messages) ==> texts(locales@) == fallbacks(lc_messages->0@),
        !set(lc_all) && !set(lc_messages) && set(lang) ==> texts(locales@) == fallbacks(lang->0@),
        !set(lc_all) && !set(lc_messages) && !set(lang) ==> locales@.len() == 0,
{
    assert(texts(locales@).len() == locales@.len());
}

/// The present desktops are the parts between colons that are not empty, in
/// order.
pub proof fn desktops_are_listed_between_colons(value: &str, desktops: Vec<String>)
    requires
        call_ensures(current_desktops, (value,), desktops),
    ensures
        texts(desktops@) == text::pieces(value@, ':').filter(|part: Seq<char>| part.len() > 0),
{
    lemma_nonempty(text::pieces(value@, ':'));
}

/// The parts that are not empty are those that a filter keeps.
proof fn lemma_nonempty(parts: Seq<Seq<char>>)
    ensures
        nonempty_parts(parts) == parts.filter(|part: Seq<char>| part.len() > 0),
    decreases parts.len(),
{
    reveal(Seq::filter);
    if parts.len() > 0 {
        lemma_nonempty(parts.drop_last());
    }
}

/// A launcher launches desktop entries but none in a terminal, and tells
/// whether it is restricted.
pub proof fn launchers_tell_what_they_do(
    config: ApplicationConfig,
    allowlist: Allowlist,
    capabilities: ApplicationCapabilities,
)
    requires
        call_ensures(
            application_allowlist,
            (&config,),
            Ok::<Allowlist, ControllerError>(allowlist),
        ),
        call_ensures(application_capabilities, (&allowlist,), capabilities),
    ensures
        capabilities.desktop_entry_launch && capabilities.terminal_entries_excluded,
        capabilities.allowlist_enabled <==> config.allow_apps@.len() > 0,
{
    assert(texts(config.allow_apps@).len() == config.allow_apps@.len());
}

/// The text of an entry makes a candidate only where it can be decoded, is an
/// application, and is not switched off; the candidate has the name, the program
/// to try and the directory that the text says.
pub proof fn entries_are_taken_at_their_word(
    path: &str,
    content: &str,
    locales: Vec<String>,
    desktops: Vec<String>,
    candidate: Option<Candidate>,
    value: spec_fn(Seq<char>) -> Option<Seq<char>>,
)
    requires
        call_ensures(examine_entry, (path, content, &locales, &desktops), candidate),
        value == (|key: Seq<char>| entry_value(path@, content@, texts(locales@), key)),
    ensures
        candidate matches Some(c) ==> {
            &&& entry_decodes(path@, content@, texts(locales@))
            &&& value("Type"@) == Some("Application"@)
            &&& value("Hidden"@) != Some("true"@)
            &&& value("NoDisplay"@) != Some("true"@)
            &&& value("Terminal"@) != Some("true"@)
            &&& value("Exec"@) is Some
            &&& Some(c.name@) == entry_name(path@, content@, texts(locales@))
            &&& text::opt_text(c.try_exec) == value("TryExec"@)
            &&& text::opt_text(c.directory) == value("Path"@)
        },
{
}

/// An identifier is taken as it is exactly where it is not empty, has no white
/// space around it, is no longer than 512 bytes and holds no slash and no zero.
pub proof fn identifiers_are_taken_as_they_are(
    app_id: &str,
    result: Result<String, ControllerError>,
)
    requires
        call_ensures(validate_app_id, (app_id,), result),
    ensures
        result is Ok <==> app_id@.len() > 0 && text::trimmed(app_id@) == app_id@
            && vstd::utf8::encode_utf8(app_id@).len() <= 512 && !app_id@.contains('/')
            && !app_id@.contains('\0'),
        result is Ok ==> result->Ok_0@ == app_id@,
        result is Err ==> result->Err_0.code == ErrorCode::InvalidInput
            && !result->Err_0.retryable,
{
}

} // verus!
