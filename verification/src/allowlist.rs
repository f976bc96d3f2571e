//! Allowlists of glob patterns. An empty list permits everything.

use vstd::prelude::*;

use crate::error;
use crate::error::{error2, error3, ControllerError, ErrorCode};
use crate::text;
use crate::text::{format_debug, texts};
use crate::types::{WindowClass, WindowInfo};

verus! {

/// A set of compiled glob patterns.
#[verifier::external_type_specification]
#[verifier::external_body]
pub struct ExGlobSet(globset::GlobSet);

/// Glob patterns that are to become a set.
#[verifier::external_type_specification]
#[verifier::external_body]
pub struct ExGlobSetBuilder(globset::GlobSetBuilder);

/// The patterns of a set, in the order in which they were added.
pub uninterp spec fn set_globs(set: globset::GlobSet) -> Seq<Seq<char>>;

/// The patterns that were added to a builder, in order.
pub uninterp spec fn builder_globs(builder: globset::GlobSetBuilder) -> Seq<Seq<char>>;

/// Why `globset::Glob::new` rejects a pattern, if it does.
pub uninterp spec fn glob_problem(pattern: Seq<char>) -> Option<Seq<char>>;

/// Why `globset::GlobSetBuilder::build` rejects patterns that are valid one by one, if it does.
pub uninterp spec fn set_problem(patterns: Seq<Seq<char>>) -> Option<Seq<char>>;

/// Whether a valid glob pattern, as one of a set, matches a text taken as a
/// path. A path that ends in `..` has no last component for a pattern that
/// looks at that component alone.
pub uninterp spec fn glob_match(pattern: Seq<char>, text: Seq<char>) -> bool;

/// `globset::GlobSetBuilder::new`, a builder without patterns.
#[verifier::external_body]
fn new_builder() -> (builder: globset::GlobSetBuilder)
    ensures
        builder_globs(builder).len() == 0,
{
    globset::GlobSetBuilder::new()
}

/// `globset::Glob::new` and `globset::GlobSetBuilder::add`. A valid pattern is
/// added at the end. An invalid one is not added, and the result says why.
#[verifier::external_body]
fn add_glob(builder: &mut globset::GlobSetBuilder, pattern: &str) -> (problem: Option<String>)
    ensures
        text::opt_text(problem) == glob_problem(pattern@),
        builder_globs(*final(builder)) == (match glob_problem(pattern@) {
            None => builder_globs(*old(builder)).push(pattern@),
            Some(_) => builder_globs(*old(builder)),
        }),
{
    match globset::Glob::new(pattern) {
        Ok(glob) => {
            builder.add(glob);
            None
        },
        Err(error) => Some(error.to_string()),
    }
}

/// `globset::GlobSetBuilder::build`, a set of the patterns of the builder, or
/// why they make up none.
#[verifier::external_body]
fn build_set(builder: &globset::GlobSetBuilder) -> (result: Result<globset::GlobSet, String>)
    ensures
        match (result, set_problem(builder_globs(*builder))) {
            (Ok(set), None) => set_globs(set) == builder_globs(*builder),
            (Err(problem), Some(expected)) => problem@ == expected,
            _ => false,
        },
{
    builder.build().map_err(|error| error.to_string())
}

/// `globset::GlobSet::is_match`: whether some pattern of the set matches.
#[verifier::external_body]
fn set_is_match(set: &globset::GlobSet, text: &str) -> (matched: bool)
    ensures
        matched == (exists|i: int|
            0 <= i < set_globs(*set).len() && #[trigger] glob_match(set_globs(*set)[i], text@)),
{
    set.is_match(text)
}

/// Whether some pattern of a list matches a text.
pub open spec fn some_glob_matches(patterns: Seq<Seq<char>>, text: Seq<char>) -> bool {
    exists|i: int| 0 <= i < patterns.len() && #[trigger] glob_match(patterns[i], text)
}

/// The first pattern of a list that is invalid, from a place on.
pub open spec fn invalid_from(patterns: Seq<Seq<char>>, from: int) -> Option<int>
    decreases patterns.len() - from,
{
    if from >= patterns.len() {
        None
    } else if glob_problem(patterns[from]) is Some {
        Some(from)
    } else {
        invalid_from(patterns, from + 1)
    }
}

/// Why patterns make up no allowlist, if so. `glob` and `list` say what they are for.
pub open spec fn allowlist_problem(
    patterns: Seq<Seq<char>>,
    glob: Seq<char>,
    list: Seq<char>,
) -> Option<Seq<char>> {
    match invalid_from(patterns, 0) {
        Some(at) => Some(
            glob + text::debug_text(patterns[at]) + ": "@ + glob_problem(patterns[at])->0,
        ),
        None => match set_problem(patterns) {
            Some(problem) => Some(list + problem),
            None => None,
        },
    }
}

/// An allowlist of glob patterns. They are compiled as a set, which reports a
/// pattern that is too large or too deeply nested to be compiled, where a
/// matcher for a single pattern would panic.
#[derive(Debug)]
pub struct Allowlist {
    set: globset::GlobSet,
    enabled: bool,
}

impl Allowlist {
    /// The patterns of the list.
    pub closed spec fn patterns(&self) -> Seq<Seq<char>> {
        set_globs(self.set)
    }

    /// Whether the list knows whether it restricts anything.
    pub closed spec fn well_formed(&self) -> bool {
        self.enabled == (set_globs(self.set).len() > 0)
    }

    /// Whether the list restricts anything.
    pub open spec fn restricts(&self) -> bool {
        self.patterns().len() > 0
    }

    /// Whether the list permits a text.
    pub open spec fn permits(&self, text: Seq<char>) -> bool {
        !self.restricts() || some_glob_matches(self.patterns(), text)
    }

    /// Makes a list of patterns. `glob` starts the message for an invalid
    /// pattern and `list` that for patterns that make up no set.
    pub fn build(patterns: &Vec<String>, glob: &str, list: &str) -> (result: Result<
        Allowlist,
        ControllerError,
    >)
        ensures
            match (result, allowlist_problem(texts(patterns@), glob@, list@)) {
                (Ok(allowlist), None) => allowlist.well_formed() && allowlist.patterns() == texts(
                    patterns@,
                ),
                (Err(e), Some(message)) => error::final_error(e, ErrorCode::InvalidInput, message),
                _ => false,
            },
    {
        let ghost all = texts(patterns@);
        let mut builder = new_builder();
        let mut at: usize = 0;
        while at < patterns.len()
            invariant
                at <= patterns.len(),
                all == texts(patterns@),
                builder_globs(builder) =~= all.take(at as int),
                invalid_from(all, 0) == invalid_from(all, at as int),
            decreases patterns.len() - at,
        {
            assert(all[at as int] == patterns@[at as int]@);
            if let Some(problem) = add_glob(&mut builder, patterns[at].as_str()) {
                let message = glob.to_owned().concat(
                    format_debug(patterns[at].as_str()).as_str(),
                ).concat(": ");
                return Err(error2(ErrorCode::InvalidInput, message.as_str(), problem.as_str()));
            }
            assert(all.take(at + 1) =~= all.take(at as int).push(all[at as int]));
            at += 1;
        }
        assert(all.take(all.len() as int) =~= all);
        match build_set(&builder) {
            Ok(set) => Ok(Allowlist { set, enabled: patterns.len() > 0 }),
            Err(problem) => Err(error2(ErrorCode::InvalidInput, list, problem.as_str())),
        }
    }

    /// Whether the list restricts anything.
    pub fn is_enabled(&self) -> (enabled: bool)
        requires
            self.well_formed(),
        ensures
            enabled == self.restricts(),
    {
        self.enabled
    }

    /// Whether the list permits a text.
    pub fn is_allowed(&self, text: &str) -> (allowed: bool)
        requires
            self.well_formed(),
        ensures
            allowed == self.permits(text@),
    {
        !self.enabled || set_is_match(&self.set, text)
    }

    /// Whether the list permits a window by one of its class names.
    pub open spec fn permits_class(&self, class: WindowClass) -> bool {
        ||| !self.restricts()
        ||| class.instance is Some && self.permits(class.instance->0@)
        ||| class.name is Some && self.permits(class.name->0@)
    }

    /// Refuses a window whose class names the list does not permit.
    pub fn ensure_window_allowed(&self, window: &WindowInfo) -> (result: Result<
        (),
        ControllerError,
    >)
        requires
            self.well_formed(),
        ensures
            match result {
                Ok(()) => self.permits_class(window.class),
                Err(e) => !self.permits_class(window.class) && error::final_error(
                    e,
                    ErrorCode::AccessDenied,
                    window_denied(window.window_ref@),
                ),
            },
    {
        let by_instance: bool = match &window.class.instance {
            Some(instance) => self.is_allowed(instance.as_str()),
            None => false,
        };
        let by_name: bool = match &window.class.name {
            Some(name) => self.is_allowed(name.as_str()),
            None => false,
        };
        decide_window(!self.enabled || by_instance || by_name, window.window_ref.as_str())
    }
}

/// Refuses a window that is not permitted.
pub fn decide_window(permitted: bool, window_ref: &str) -> (result: Result<(), ControllerError>)
    ensures
        match result {
            Ok(()) => permitted,
            Err(e) => !permitted && error::final_error(
                e,
                ErrorCode::AccessDenied,
                window_denied(window_ref@),
            ),
        },
{
    if permitted {
        Ok(())
    } else {
        Err(
            error3(
                ErrorCode::AccessDenied,
                "window ",
                window_ref,
                " is not permitted by --allow-window-class",
            ),
        )
    }
}

/// What is said of a window that is not permitted.
pub open spec fn window_denied(window_ref: Seq<char>) -> Seq<char> {
    "window "@ + window_ref + " is not permitted by --allow-window-class"@
}

impl Allowlist {
    /// A list holds the patterns that it was made of, restricts exactly where
    /// there are any, and is refused where one of them is invalid.
    pub proof fn lists_hold_their_patterns(
        patterns: Vec<String>,
        glob: &str,
        list: &str,
        result: Result<Allowlist, ControllerError>,
        at: int,
    )
        requires
            call_ensures(Allowlist::build, (&patterns, glob, list), result),
        ensures
            result matches Ok(allowlist) ==> {
                &&& allowlist.patterns().len() == patterns@.len()
                &&& allowlist.restricts() <==> patterns@.len() > 0
                &&& 0 <= at < patterns@.len() ==> allowlist.patterns()[at] == patterns@[at]@
                    && glob_problem(patterns@[at]@) is None
            },
            result is Err ==> result->Err_0.code == ErrorCode::InvalidInput,
            0 <= at < patterns@.len() && glob_problem(patterns@[at]@) is Some ==> result is Err,
    {
        lemma_invalid_from(texts(patterns@), 0);
        if 0 <= at < patterns@.len() {
            assert(texts(patterns@)[at] == patterns@[at]@);
        }
    }

    /// A window may be acted on exactly where the list restricts nothing, or a
    /// pattern matches its instance name or its class name.
    pub proof fn windows_are_permitted_by_class(
        &self,
        window: WindowInfo,
        result: Result<(), ControllerError>,
    )
        requires
            call_ensures(Allowlist::ensure_window_allowed, (self, &window), result),
        ensures
            ({
                let matched = |name: Option<String>|
                    name is Some && exists|i: int|
                        0 <= i < self.patterns().len() && #[trigger] glob_match(
                            self.patterns()[i],
                            name->0@,
                        );
                &&& result is Ok <==> self.patterns().len() == 0 || matched(
                    window.class.instance,
                ) || matched(window.class.name)
                &&& result is Err ==> result->Err_0.code == ErrorCode::AccessDenied
            }),
    {
    }

    /// A text is permitted exactly where the list restricts nothing, or a
    /// pattern matches it.
    pub proof fn texts_are_permitted_by_pattern(&self, text: &str, allowed: bool)
        requires
            call_ensures(Allowlist::is_allowed, (self, text), allowed),
        ensures
            allowed <==> self.patterns().len() == 0 || exists|i: int|
                0 <= i < self.patterns().len() && #[trigger] glob_match(self.patterns()[i], text@),
    {
    }
}

/// Where a search for an invalid pattern ends.
proof fn lemma_invalid_from(patterns: Seq<Seq<char>>, from: int)
    requires
        0 <= from,
    ensures
        match invalid_from(patterns, from) {
            Some(at) => from <= at < patterns.len() && glob_problem(patterns[at]) is Some,
            None => forall|i: int|
                from <= i < patterns.len() ==> glob_problem(#[trigger] patterns[i]) is None,
        },
    decreases patterns.len() - from,
{
    if from < patterns.len() && glob_problem(patterns[from]) is None {
        lemma_invalid_from(patterns, from + 1);
    }
}

} // verus!
