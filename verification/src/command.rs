//! The `Exec` values of desktop entries: their words and field codes.

use vstd::prelude::*;

use crate::error;
use crate::error::{ControllerError, ErrorCode};
use crate::text;
use crate::text::{contains_char, is_whitespace, same_text, texts, to_chars};

verus! {

/// What is said of a value that is malformed.
pub open spec fn format_problem() -> Seq<char> {
    "desktop entry Exec value has invalid quoting or field codes"@
}

/// The error of a value that is malformed.
pub fn exec_format_error() -> (e: ControllerError)
    ensures
        error::final_error(e, ErrorCode::InvalidInput, format_problem()),
{
    ControllerError::new(
        ErrorCode::InvalidInput,
        "desktop entry Exec value has invalid quoting or field codes",
    )
}

/// Whether a character can be escaped within quotes.
pub open spec fn escapable(c: char) -> bool {
    c == '"' || c == '`' || c == '$' || c == '\\'
}

/// Whether a character must be quoted.
pub open spec fn reserved(c: char) -> bool {
    ||| c == '\\'
    ||| c == '\''
    ||| c == '>'
    ||| c == '<'
    ||| c == '~'
    ||| c == '|'
    ||| c == '&'
    ||| c == ';'
    ||| c == '$'
    ||| c == '*'
    ||| c == '?'
    ||| c == '#'
    ||| c == '('
    ||| c == ')'
    ||| c == '`'
}

/// Whether a character can be escaped within quotes.
fn is_escapable(c: char) -> (result: bool)
    ensures
        result == escapable(c),
{
    c == '"' || c == '`' || c == '$' || c == '\\'
}

/// Whether a character must be quoted.
fn is_reserved(c: char) -> (result: bool)
    ensures
        result == reserved(c),
{
    c == '\\' || c == '\'' || c == '>' || c == '<' || c == '~' || c == '|' || c == '&' || c == ';'
        || c == '$' || c == '*' || c == '?' || c == '#' || c == '(' || c == ')' || c == '`'
}

/// How far the words of a value have been read: the words so far, the word
/// that is being read, whether it has begun, and whether the next character
/// is within quotes or escaped there.
#[verifier::ext_equal]
pub struct Words {
    pub done: Seq<Seq<char>>,
    pub word: Seq<char>,
    pub begun: bool,
    pub quoted: bool,
    pub escaped: bool,
}

impl Words {
    /// The words after one more character, where it may stand there.
    pub open spec fn after(self, c: char) -> Option<Words> {
        if self.escaped {
            if escapable(c) {
                Some(Words { word: self.word.push(c), escaped: false, ..self })
            } else {
                None
            }
        } else if self.quoted {
            if c == '"' {
                Some(Words { quoted: false, ..self })
            } else if c == '\\' {
                Some(Words { escaped: true, ..self })
            } else {
                Some(Words { word: self.word.push(c), ..self })
            }
        } else if c == '"' {
            Some(Words { quoted: true, begun: true, ..self })
        } else if text::whitespace(c) {
            if self.begun {
                Some(
                    Words {
                        done: self.done.push(self.word),
                        word: Seq::empty(),
                        begun: false,
                        ..self
                    },
                )
            } else {
                Some(self)
            }
        } else if reserved(c) {
            None
        } else {
            Some(Words { word: self.word.push(c), begun: true, ..self })
        }
    }
}

/// The words of a value as far as it has been read.
pub open spec fn words_read(exec: Seq<char>) -> Option<Words>
    decreases exec.len(),
{
    if exec.len() == 0 {
        Some(
            Words {
                done: Seq::empty(),
                word: Seq::empty(),
                begun: false,
                quoted: false,
                escaped: false,
            },
        )
    } else {
        match words_read(exec.drop_last()) {
            Some(words) => words.after(exec.last()),
            None => None,
        }
    }
}

/// The words of a value, where it is well formed: words are separated by
/// white space, and quotes protect it and the reserved characters.
pub open spec fn words_of(exec: Seq<char>) -> Option<Seq<Seq<char>>> {
    match words_read(exec) {
        Some(words) => if words.quoted || words.escaped {
            None
        } else if words.begun {
            Some(words.done.push(words.word))
        } else {
            Some(words.done)
        },
        None => None,
    }
}

/// Nothing follows a character that may not stand where it stands.
proof fn lemma_words_fail(exec: Seq<char>, end: int)
    requires
        0 <= end <= exec.len(),
        words_read(exec.take(end)) is None,
    ensures
        words_read(exec) is None,
    decreases exec.len() - end,
{
    if end == exec.len() {
        assert(exec.take(end) =~= exec);
    } else {
        assert(exec.take(end + 1).drop_last() =~= exec.take(end));
        lemma_words_fail(exec, end + 1);
    }
}

/// A well formed value without quotes holds no reserved character: nothing
/// that a shell would act on gets through unquoted.
pub proof fn reserved_characters_are_quoted(exec: Seq<char>, at: int)
    requires
        words_of(exec) is Some,
        !exec.contains('"'),
        0 <= at < exec.len(),
        !text::whitespace(exec[at]),
    ensures
        !reserved(exec[at]),
{
    lemma_unquoted(exec, at);
}

/// Without quotes, what was read is never within quotes.
proof fn lemma_unquoted(exec: Seq<char>, at: int)
    requires
        words_read(exec) is Some,
        !exec.contains('"'),
        0 <= at < exec.len(),
    ensures
        !words_read(exec)->0.quoted && !words_read(exec)->0.escaped,
        !text::whitespace(exec[at]) ==> !reserved(exec[at]),
    decreases exec.len(),
{
    let rest = exec.drop_last();
    assert(exec.contains(exec.last()));
    assert(!rest.contains('"')) by {
        if rest.contains('"') {
            let i = rest.index_of('"');
            assert(exec[i] == '"');
        }
    }
    if rest.len() > 0 {
        if at < rest.len() {
            lemma_unquoted(rest, at);
        } else {
            lemma_unquoted(rest, 0);
        }
    }
}

/// A character as it is written within quotes.
pub open spec fn quoted_char(c: char) -> Seq<char> {
    if escapable(c) {
        seq!['\\', c]
    } else {
        seq![c]
    }
}

/// A word as it is written within quotes.
pub open spec fn quoted_body(word: Seq<char>) -> Seq<char>
    decreases word.len(),
{
    if word.len() == 0 {
        Seq::empty()
    } else {
        quoted_body(word.drop_last()) + quoted_char(word.last())
    }
}

/// A word in quotes.
pub open spec fn quoted(word: Seq<char>) -> Seq<char> {
    seq!['"'] + quoted_body(word) + seq!['"']
}

/// Words in quotes, with a space between two.
pub open spec fn quoted_words(words: Seq<Seq<char>>) -> Seq<char>
    decreases words.len(),
{
    if words.len() == 0 {
        Seq::empty()
    } else if words.len() == 1 {
        quoted(words[0])
    } else {
        quoted_words(words.drop_last()).push(' ') + quoted(words.last())
    }
}

/// Words that are quoted and joined read back unchanged and in order,
/// whatever characters they hold: white space and what a shell would act on
/// stay part of their word.
pub proof fn quoted_words_read_back(words: Seq<Seq<char>>)
    ensures
        words_of(quoted_words(words)) == Some(words),
{
    if words.len() > 0 {
        lemma_words_quoted(words);
        assert(words.drop_last().push(words.last()) =~= words);
    } else {
        assert(words =~= Seq::empty());
    }
}

/// One more character is read after the others.
proof fn lemma_read_on(exec: Seq<char>, c: char)
    ensures
        words_read(exec.push(c)) == (match words_read(exec) {
            Some(words) => words.after(c),
            None => None,
        }),
{
    assert(exec.push(c).drop_last() =~= exec);
}

/// What is written within quotes is read as the word.
proof fn lemma_body_read(before: Seq<char>, words: Words, word: Seq<char>)
    requires
        words_read(before) == Some(words),
        words.quoted,
        !words.escaped,
    ensures
        words_read(before + quoted_body(word)) == Some(Words { word: words.word + word, ..words }),
    decreases word.len(),
{
    if word.len() == 0 {
        assert(before + quoted_body(word) =~= before);
        assert(words.word + word =~= words.word);
    } else {
        let rest = word.drop_last();
        let c = word.last();
        let read = before + quoted_body(rest);
        lemma_body_read(before, words, rest);
        assert(words.word + word =~= (words.word + rest).push(c));
        if escapable(c) {
            lemma_read_on(read, '\\');
            lemma_read_on(read.push('\\'), c);
            assert(before + quoted_body(word) =~= read.push('\\').push(c));
        } else {
            lemma_read_on(read, c);
            assert(before + quoted_body(word) =~= read.push(c));
        }
    }
}

/// A word in quotes is read as the word, where none has begun.
proof fn lemma_quoted_read(before: Seq<char>, words: Words, word: Seq<char>)
    requires
        words_read(before) == Some(words),
        words.word.len() == 0,
        !words.begun,
        !words.quoted,
        !words.escaped,
    ensures
        words_read(before + quoted(word)) == Some(Words { word, begun: true, ..words }),
{
    let open = Words { quoted: true, begun: true, ..words };
    lemma_read_on(before, '"');
    lemma_body_read(before.push('"'), open, word);
    let read = before.push('"') + quoted_body(word);
    lemma_read_on(read, '"');
    assert(words.word + word =~= word);
    assert(before + quoted(word) =~= read.push('"'));
}

/// The last of some quoted words is being read at the end.
proof fn lemma_words_quoted(words: Seq<Seq<char>>)
    requires
        words.len() > 0,
    ensures
        words_read(quoted_words(words)) == Some(
            Words {
                done: words.drop_last(),
                word: words.last(),
                begun: true,
                quoted: false,
                escaped: false,
            },
        ),
    decreases words.len(),
{
    if words.len() == 1 {
        let start = words_read(Seq::<char>::empty())->0;
        lemma_quoted_read(Seq::<char>::empty(), start, words[0]);
        assert(Seq::<char>::empty() + quoted(words[0]) =~= quoted(words[0]));
        assert(words.drop_last() =~= Seq::<Seq<char>>::empty());
    } else {
        let rest = words.drop_last();
        lemma_words_quoted(rest);
        lemma_read_on(quoted_words(rest), ' ');
        assert(rest.drop_last().push(rest.last()) =~= rest);
        let read = quoted_words(rest).push(' ');
        lemma_quoted_read(read, words_read(read)->0, words.last());
    }
}

/// The words of a value.
pub fn tokenize_exec(exec: &str) -> (result: Result<Vec<String>, ControllerError>)
    ensures
        match (result, words_of(exec@)) {
            (Ok(words), Some(expected)) => texts(words@) == expected,
            (Err(e), None) => error::final_error(e, ErrorCode::InvalidInput, format_problem()),
            _ => false,
        },
{
    let characters = to_chars(exec);
    let mut done: Vec<String> = Vec::new();
    let mut word = String::new();
    let mut begun: bool = false;
    let mut quoted: bool = false;
    let mut escaped: bool = false;
    let mut at: usize = 0;
    assert(texts(done@) =~= Seq::empty());
    assert(word@ =~= Seq::empty());
    while at < characters.len()
        invariant
            at <= characters.len(),
            characters@ == exec@,
            words_read(exec@.take(at as int)) == Some(
                Words { done: texts(done@), word: word@, begun, quoted, escaped },
            ),
        decreases characters.len() - at,
    {
        let c = characters[at];
        proof {
            assert(exec@.take(at + 1).drop_last() =~= exec@.take(at as int));
            assert(exec@.take(at + 1).last() == c);
            if words_read(exec@.take(at + 1)) is None {
                lemma_words_fail(exec@, at + 1);
            }
        }
        if escaped {
            if !is_escapable(c) {
                return Err(exec_format_error());
            }
            word.push(c);
            escaped = false;
        } else if quoted {
            if c == '"' {
                quoted = false;
            } else if c == '\\' {
                escaped = true;
            } else {
                word.push(c);
            }
        } else if c == '"' {
            quoted = true;
            begun = true;
        } else if is_whitespace(c) {
            if begun {
                let ghost before = done@;
                let ghost ended = word@;
                done.push(word);
                assert(texts(done@) =~= texts(before).push(ended));
                word = String::new();
                assert(word@ =~= Seq::empty());
                begun = false;
            }
        } else if is_reserved(c) {
            return Err(exec_format_error());
        } else {
            word.push(c);
            begun = true;
        }
        at += 1;
    }
    assert(exec@.take(exec@.len() as int) =~= exec@);
    if quoted || escaped {
        return Err(exec_format_error());
    }
    if begun {
        let ghost before = done@;
        let ghost ended = word@;
        done.push(word);
        assert(texts(done@) =~= texts(before).push(ended));
    }
    Ok(done)
}

/// Whether a word is a field code that stands for files, links or what is
/// no longer used, and is left out.
pub open spec fn left_out(word: Seq<char>) -> bool {
    ||| word == "%f"@
    ||| word == "%F"@
    ||| word == "%u"@
    ||| word == "%U"@
    ||| word == "%d"@
    ||| word == "%D"@
    ||| word == "%n"@
    ||| word == "%N"@
    ||| word == "%v"@
    ||| word == "%m"@
}

/// Whether a word is left out.
fn is_left_out(word: &str) -> (result: bool)
    ensures
        result == left_out(word@),
{
    same_text(word, "%f") || same_text(word, "%F") || same_text(word, "%u") || same_text(
        word,
        "%U",
    ) || same_text(word, "%d") || same_text(word, "%D") || same_text(word, "%n") || same_text(
        word,
        "%N",
    ) || same_text(word, "%v") || same_text(word, "%m")
}

/// What field codes stand for: the name of the application, the place of its
/// entry, and its icon.
pub struct Fields {
    pub name: Option<Seq<char>>,
    pub location: Seq<char>,
    pub icon: Option<Seq<char>>,
}

/// How far a word has been expanded: the text so far, and whether the next
/// character is a field code.
pub struct Expansion {
    pub text: Seq<char>,
    pub coded: bool,
}

/// A word as far as it has been expanded, where its codes may stand there.
pub open spec fn expanded(word: Seq<char>, fields: Fields) -> Option<Expansion>
    decreases word.len(),
{
    if word.len() == 0 {
        Some(Expansion { text: Seq::empty(), coded: false })
    } else {
        match expanded(word.drop_last(), fields) {
            None => None,
            Some(before) => {
                let c = word.last();
                if !before.coded {
                    if c == '%' {
                        Some(Expansion { coded: true, ..before })
                    } else {
                        Some(Expansion { text: before.text.push(c), coded: false })
                    }
                } else if c == '%' {
                    Some(Expansion { text: before.text.push('%'), coded: false })
                } else if c == 'c' {
                    Some(
                        Expansion {
                            text: before.text + (match fields.name {
                                Some(name) => name,
                                None => Seq::empty(),
                            }),
                            coded: false,
                        },
                    )
                } else if c == 'k' {
                    Some(Expansion { text: before.text + fields.location, coded: false })
                } else {
                    None
                }
            },
        }
    }
}

/// The arguments that a word stands for, where its codes may stand there.
pub open spec fn arguments(word: Seq<char>, fields: Fields) -> Option<Seq<Seq<char>>> {
    if left_out(word) {
        Some(Seq::empty())
    } else if word == "%i"@ {
        match fields.icon {
            Some(icon) => Some(seq!["--icon"@, icon]),
            None => Some(Seq::empty()),
        }
    } else {
        match expanded(word, fields) {
            Some(expansion) => if expansion.coded {
                None
            } else {
                Some(seq![expansion.text])
            },
            None => None,
        }
    }
}

/// Nothing follows a code that may not stand where it stands.
proof fn lemma_expansion_fails(word: Seq<char>, fields: Fields, end: int)
    requires
        0 <= end <= word.len(),
        expanded(word.take(end), fields) is None,
    ensures
        expanded(word, fields) is None,
    decreases word.len() - end,
{
    if end == word.len() {
        assert(word.take(end) =~= word);
    } else {
        assert(word.take(end + 1).drop_last() =~= word.take(end));
        lemma_expansion_fails(word, fields, end + 1);
    }
}

/// What the fields of some strings are.
pub open spec fn fields_of(
    name: Option<String>,
    location: Seq<char>,
    icon: Option<String>,
) -> Fields {
    Fields { name: text::opt_text(name), location, icon: text::opt_text(icon) }
}

/// The arguments that a word stands for.
pub fn expand_exec_token(
    word: &str,
    name: &Option<String>,
    location: &str,
    icon: &Option<String>,
) -> (result: Result<Vec<String>, ControllerError>)
    ensures
        match (result, arguments(word@, fields_of(*name, location@, *icon))) {
            (Ok(list), Some(expected)) => texts(list@) == expected,
            (Err(e), None) => error::final_error(e, ErrorCode::InvalidInput, format_problem()),
            _ => false,
        },
{
    if is_left_out(word) {
        let list: Vec<String> = Vec::new();
        assert(texts(list@) =~= Seq::empty());
        return Ok(list);
    }
    if same_text(word, "%i") {
        let mut list: Vec<String> = Vec::new();
        if let Some(icon) = icon {
            list.push("--icon".to_owned());
            list.push(icon.clone());
            assert(texts(list@) =~= seq!["--icon"@, icon@]);
        } else {
            assert(texts(list@) =~= Seq::empty());
        }
        return Ok(list);
    }
    let ghost fields = fields_of(*name, location@, *icon);
    let characters = to_chars(word);
    let mut result = String::new();
    let mut coded: bool = false;
    let mut at: usize = 0;
    assert(result@ =~= Seq::empty());
    while at < characters.len()
        invariant
            at <= characters.len(),
            characters@ == word@,
            fields == fields_of(*name, location@, *icon),
            !left_out(word@),
            word@ != "%i"@,
            expanded(word@.take(at as int), fields) == Some(Expansion { text: result@, coded }),
        decreases characters.len() - at,
    {
        let c = characters[at];
        proof {
            assert(word@.take(at + 1).drop_last() =~= word@.take(at as int));
            assert(word@.take(at + 1).last() == c);
            if expanded(word@.take(at + 1), fields) is None {
                lemma_expansion_fails(word@, fields, at + 1);
            }
        }
        if !coded {
            if c == '%' {
                coded = true;
            } else {
                result.push(c);
            }
        } else if c == '%' {
            result.push('%');
            coded = false;
        } else if c == 'c' {
            if let Some(name) = name {
                result.append(name.as_str());
            } else {
                assert(result@ + Seq::<char>::empty() =~= result@);
            }
            coded = false;
        } else if c == 'k' {
            result.append(location);
            coded = false;
        } else {
            return Err(exec_format_error());
        }
        at += 1;
    }
    assert(word@.take(word@.len() as int) =~= word@);
    if coded {
        return Err(exec_format_error());
    }
    let list = vec![result];
    assert(texts(list@) =~= seq![list@[0]@]);
    Ok(list)
}

/// The arguments that words stand for, one after the other.
pub open spec fn all_arguments(words: Seq<Seq<char>>, fields: Fields) -> Option<Seq<Seq<char>>>
    decreases words.len(),
{
    if words.len() == 0 {
        Some(Seq::empty())
    } else {
        match (all_arguments(words.drop_last(), fields), arguments(words.last(), fields)) {
            (Some(before), Some(list)) => Some(before + list),
            _ => None,
        }
    }
}

/// Nothing follows a word whose codes may not stand there.
proof fn lemma_arguments_fail(words: Seq<Seq<char>>, fields: Fields, end: int)
    requires
        0 <= end <= words.len(),
        all_arguments(words.take(end), fields) is None,
    ensures
        all_arguments(words, fields) is None,
    decreases words.len() - end,
{
    if end == words.len() {
        assert(words.take(end) =~= words);
    } else {
        assert(words.take(end + 1).drop_last() =~= words.take(end));
        lemma_arguments_fail(words, fields, end + 1);
    }
}

/// The command line of a value, or what is wrong with it.
pub open spec fn command_line(exec: Seq<char>, fields: Fields) -> Result<
    Seq<Seq<char>>,
    Seq<char>,
> {
    match words_of(exec) {
        None => Err(format_problem()),
        Some(words) => match all_arguments(words, fields) {
            None => Err(format_problem()),
            Some(argv) => if argv.len() == 0 || argv[0].contains('=') {
                Err("desktop entry Exec value has no valid executable"@)
            } else {
                Ok(argv)
            },
        },
    }
}

/// The command line of a value.
pub fn expand_command(
    exec: &str,
    name: &Option<String>,
    location: &str,
    icon: &Option<String>,
) -> (result: Result<Vec<String>, ControllerError>)
    ensures
        match (result, command_line(exec@, fields_of(*name, location@, *icon))) {
            (Ok(argv), Ok(expected)) => texts(argv@) == expected,
            (Err(e), Err(message)) => error::final_error(e, ErrorCode::InvalidInput, message),
            _ => false,
        },
{
    let words = match tokenize_exec(exec) {
        Ok(words) => words,
        Err(e) => {
            return Err(e);
        },
    };
    let argv = match expand_words(&words, name, location, icon) {
        Ok(argv) => argv,
        Err(e) => {
            return Err(e);
        },
    };
    if argv.len() == 0 {
        return Err(
            ControllerError::new(
                ErrorCode::InvalidInput,
                "desktop entry Exec value has no valid executable",
            ),
        );
    }
    assert(texts(argv@)[0] == argv@[0]@);
    if contains_char(argv[0].as_str(), '=') {
        return Err(
            ControllerError::new(
                ErrorCode::InvalidInput,
                "desktop entry Exec value has no valid executable",
            ),
        );
    }
    Ok(argv)
}

/// The arguments that words stand for.
fn expand_words(
    words: &Vec<String>,
    name: &Option<String>,
    location: &str,
    icon: &Option<String>,
) -> (result: Result<Vec<String>, ControllerError>)
    ensures
        match (result, all_arguments(texts(words@), fields_of(*name, location@, *icon))) {
            (Ok(argv), Some(expected)) => texts(argv@) == expected,
            (Err(e), None) => error::final_error(e, ErrorCode::InvalidInput, format_problem()),
            _ => false,
        },
{
    let ghost fields = fields_of(*name, location@, *icon);
    let ghost all = texts(words@);
    let mut argv: Vec<String> = Vec::new();
    let mut at: usize = 0;
    assert(texts(argv@) =~= Seq::empty());
    while at < words.len()
        invariant
            at <= words.len(),
            fields == fields_of(*name, location@, *icon),
            all == texts(words@),
            all_arguments(all.take(at as int), fields) == Some(texts(argv@)),
        decreases words.len() - at,
    {
        proof {
            assert(all.take(at + 1).drop_last() =~= all.take(at as int));
            assert(all.take(at + 1).last() == words@[at as int]@);
            if all_arguments(all.take(at + 1), fields) is None {
                lemma_arguments_fail(all, fields, at + 1);
            }
        }
        match expand_exec_token(words[at].as_str(), name, location, icon) {
            Ok(list) => {
                let ghost before = argv@;
                let ghost added = list@;
                let mut list = list;
                argv.append(&mut list);
                assert(texts(argv@) =~= texts(before) + texts(added));
            },
            Err(e) => {
                return Err(e);
            },
        }
        at += 1;
    }
    assert(all.take(all.len() as int) =~= all);
    Ok(argv)
}

/// Whether a word can be written without quotes.
pub open spec fn plain(word: Seq<char>) -> bool {
    forall|i: int|
        0 <= i < word.len() ==> {
            let c = #[trigger] word[i];
            c != '"' && !text::whitespace(c) && !reserved(c)
        }
}

/// What is written plainly is added to the word that is being read.
proof fn lemma_plain_read(before: Seq<char>, words: Words, word: Seq<char>)
    requires
        words_read(before) == Some(words),
        !words.quoted,
        !words.escaped,
        plain(word),
    ensures
        words_read(before + word) == Some(
            Words { word: words.word + word, begun: words.begun || word.len() > 0, ..words },
        ),
    decreases word.len(),
{
    if word.len() == 0 {
        assert(before + word =~= before);
        assert(words.word + word =~= words.word);
    } else {
        let rest = word.drop_last();
        assert forall|i: int| 0 <= i < rest.len() implies {
            let c = #[trigger] rest[i];
            c != '"' && !text::whitespace(c) && !reserved(c)
        } by {
            assert(rest[i] == word[i]);
        }
        lemma_plain_read(before, words, rest);
        lemma_read_on(before + rest, word.last());
        assert(before + word =~= (before + rest).push(word.last()));
        assert(words.word + word =~= (words.word + rest).push(word.last()));
        assert(word[word.len() - 1] == word.last());
    }
}

/// Words with one space between two.
pub open spec fn spaced(words: Seq<Seq<char>>) -> Seq<char>
    decreases words.len(),
{
    if words.len() == 0 {
        Seq::empty()
    } else if words.len() == 1 {
        words[0]
    } else {
        spaced(words.drop_last()).push(' ') + words.last()
    }
}

/// The last of some plain words is being read at the end.
proof fn lemma_spaced(words: Seq<Seq<char>>)
    requires
        words.len() > 0,
        forall|i: int| 0 <= i < words.len() ==> plain(#[trigger] words[i]) && words[i].len() > 0,
    ensures
        words_read(spaced(words)) == Some(
            Words {
                done: words.drop_last(),
                word: words.last(),
                begun: true,
                quoted: false,
                escaped: false,
            },
        ),
    decreases words.len(),
{
    if words.len() == 1 {
        let start = words_read(Seq::<char>::empty())->0;
        lemma_plain_read(Seq::<char>::empty(), start, words[0]);
        assert(Seq::<char>::empty() + words[0] =~= words[0]);
        assert(words.drop_last() =~= Seq::<Seq<char>>::empty());
    } else {
        let rest = words.drop_last();
        assert forall|i: int| 0 <= i < rest.len() implies plain(#[trigger] rest[i])
            && rest[i].len() > 0 by {
            assert(rest[i] == words[i]);
        }
        lemma_spaced(rest);
        lemma_read_on(spaced(rest), ' ');
        assert(rest.drop_last().push(rest.last()) =~= rest);
        let read = spaced(rest).push(' ');
        assert(plain(words[words.len() - 1]));
        lemma_plain_read(read, words_read(read)->0, words.last());
        assert(Seq::<char>::empty() + words.last() =~= words.last());
    }
}

/// Words without quotes, white space and reserved characters are read back
/// unchanged and in order from a value that has a space between two.
pub proof fn plain_words_read_back(
    words: Seq<Seq<char>>,
    exec: &str,
    result: Result<Vec<String>, ControllerError>,
)
    requires
        call_ensures(tokenize_exec, (exec,), result),
        exec@ == spaced(words),
        forall|i: int| 0 <= i < words.len() ==> plain(#[trigger] words[i]) && words[i].len() > 0,
    ensures
        result is Ok,
        texts(result->Ok_0@) == words,
{
    if words.len() > 0 {
        lemma_spaced(words);
        assert(words.drop_last().push(words.last()) =~= words);
    } else {
        assert(words =~= Seq::empty());
    }
}

/// A value that ends in white space has the words that it has without it.
pub proof fn trailing_white_space_does_not_count(exec: Seq<char>, space: char)
    requires
        words_of(exec) is Some,
        text::whitespace(space),
    ensures
        words_of(exec.push(space)) == words_of(exec),
{
    lemma_read_on(exec, space);
}

/// Quotes within a word are no part of it and end no word.
pub proof fn quotes_can_stand_within_a_word(left: Seq<char>, word: Seq<char>, right: Seq<char>)
    requires
        plain(left),
        plain(right),
    ensures
        words_of(left + quoted(word) + right) == Some(seq![left + word + right]),
{
    let start = words_read(Seq::<char>::empty())->0;
    lemma_plain_read(Seq::<char>::empty(), start, left);
    assert(Seq::<char>::empty() + left =~= left);
    let begun = words_read(left)->0;
    let open = Words { quoted: true, begun: true, ..begun };
    lemma_read_on(left, '"');
    lemma_body_read(left.push('"'), open, word);
    let read = left.push('"') + quoted_body(word);
    lemma_read_on(read, '"');
    let closed = read.push('"');
    assert(left + quoted(word) =~= closed);
    lemma_plain_read(closed, words_read(closed)->0, right);
    assert(words_of(left + quoted(word) + right)->0 =~= seq![left + word + right]);
}

/// A value is malformed where its quotes are not closed, where a character is
/// escaped within them that cannot be, and where a reserved character stands
/// outside of them.
pub proof fn malformed_values_are_refused(
    words: Seq<char>,
    word: Seq<char>,
    c: char,
    after: Seq<char>,
)
    requires
        plain(words),
    ensures
        words_of(words.push('"') + quoted_body(word)) is None,
        c != '"' && c != '`' && c != '$' && c != '\\' ==> words_of(
            words.push('"') + quoted_body(word) + seq!['\\', c] + after,
        ) is None,
        "\\'><~|&;$*?#()`"@.contains(c) ==> words_of(words.push(c) + after) is None,
{
    let start = words_read(Seq::<char>::empty())->0;
    lemma_plain_read(Seq::<char>::empty(), start, words);
    assert(Seq::<char>::empty() + words =~= words);
    let begun = words_read(words)->0;
    lemma_read_on(words, '"');
    lemma_body_read(words.push('"'), Words { quoted: true, begun: true, ..begun }, word);
    let read = words.push('"') + quoted_body(word);
    reveal_strlit("\\'><~|&;$*?#()`");
    if !escapable(c) {
        lemma_read_on(read, '\\');
        lemma_read_on(read.push('\\'), c);
        let all = read + seq!['\\', c] + after;
        assert(all.take(read.len() as int + 2) =~= read.push('\\').push(c));
        lemma_words_fail(all, read.len() as int + 2);
    }
    if reserved(c) {
        lemma_read_on(words, c);
        let all = words.push(c) + after;
        assert(all.take(words.len() as int + 1) =~= words.push(c));
        lemma_words_fail(all, words.len() as int + 1);
    }
}

/// A quote, a backquote, a dollar sign and a backslash can be escaped within
/// quotes, and no character needs to be quoted but those that are refused
/// outside of quotes, the quote itself and white space.
pub proof fn other_characters_stand_for_themselves(c: char)
    ensures
        c == '"' || c == '`' || c == '$' || c == '\\' ==> words_of(seq!['"', '\\', c, '"'])
            == Some(seq![seq![c]]),
        c != '"' && !text::whitespace(c) && !"\\'><~|&;$*?#()`"@.contains(c) ==> words_of(seq![c])
            == Some(seq![seq![c]]),
        c != '"' && c != '\\' ==> words_of(seq!['"', c, '"']) == Some(seq![seq![c]]),
{
    let none = Seq::<char>::empty();
    assert(none.push('"').push('\\').push(c).push('"') =~= seq!['"', '\\', c, '"']);
    assert(none.push('"').push(c).push('"') =~= seq!['"', c, '"']);
    assert(none.push(c) =~= seq![c]);
    lemma_read_on(none, '"');
    lemma_read_on(none.push('"'), '\\');
    lemma_read_on(none.push('"').push('\\'), c);
    lemma_read_on(none.push('"').push('\\').push(c), '"');
    lemma_read_on(none.push('"'), c);
    lemma_read_on(none.push('"').push(c), '"');
    lemma_read_on(none, c);
    reveal_strlit("\\'><~|&;$*?#()`");
    if reserved(c) {
        let list = "\\'><~|&;$*?#()`"@;
        let at = if c == '\\' {
            0
        } else if c == '\'' {
            1
        } else if c == '>' {
            2
        } else if c == '<' {
            3
        } else if c == '~' {
            4
        } else if c == '|' {
            5
        } else if c == '&' {
            6
        } else if c == ';' {
            7
        } else if c == '$' {
            8
        } else if c == '*' {
            9
        } else if c == '?' {
            10
        } else if c == '#' {
            11
        } else if c == '(' {
            12
        } else if c == ')' {
            13
        } else {
            14int
        };
        assert(list[at] == c);
    }
    assert(none.push(c) =~= seq![c]);
}

/// A text as it is written in a word: with two percent signs for each one.
pub open spec fn doubled(text: Seq<char>) -> Seq<char>
    decreases text.len(),
{
    if text.len() == 0 {
        Seq::empty()
    } else if text.last() == '%' {
        doubled(text.drop_last()) + seq!['%', '%']
    } else {
        doubled(text.drop_last()).push(text.last())
    }
}

/// One more character is expanded after the others.
proof fn lemma_expand_on(word: Seq<char>, c: char, fields: Fields)
    requires
        expanded(word, fields) is Some,
    ensures
        ({
            let before = expanded(word, fields)->0;
            let after = expanded(word.push(c), fields);
            &&& !before.coded && c == '%' ==> after == Some(Expansion { coded: true, ..before })
            &&& !before.coded && c != '%' ==> after == Some(
                Expansion { text: before.text.push(c), coded: false },
            )
            &&& before.coded && c == '%' ==> after == Some(
                Expansion { text: before.text.push('%'), coded: false },
            )
            &&& before.coded && c == 'k' ==> after == Some(
                Expansion { text: before.text + fields.location, coded: false },
            )
            &&& before.coded && c == 'c' ==> after == Some(
                Expansion {
                    text: before.text + (if fields.name is Some {
                        fields.name->0
                    } else {
                        Seq::empty()
                    }),
                    coded: false,
                },
            )
            &&& before.coded && c != '%' && c != 'c' && c != 'k' ==> after is None
        }),
{
    assert(word.push(c).drop_last() =~= word);
}

/// What is written with doubled percent signs expands to the text.
proof fn lemma_doubled(before: Seq<char>, fields: Fields, text: Seq<char>)
    requires
        expanded(before, fields) is Some,
        !expanded(before, fields)->0.coded,
    ensures
        expanded(before + doubled(text), fields) == Some(
            Expansion { text: expanded(before, fields)->0.text + text, coded: false },
        ),
    decreases text.len(),
{
    let start = expanded(before, fields)->0.text;
    if text.len() == 0 {
        assert(before + doubled(text) =~= before);
        assert(start + text =~= start);
    } else {
        let rest = text.drop_last();
        lemma_doubled(before, fields, rest);
        let read = before + doubled(rest);
        assert(start + text =~= (start + rest).push(text.last()));
        if text.last() == '%' {
            assert(before + doubled(text) =~= read.push('%').push('%'));
            lemma_expand_on(read, '%', fields);
            lemma_expand_on(read.push('%'), '%', fields);
        } else {
            assert(before + doubled(text) =~= read.push(text.last()));
            lemma_expand_on(read, text.last(), fields);
        }
    }
}

/// Within a word, a doubled percent sign stands for one, the code `%c` for the
/// name of the application, the code `%k` for the place of its entry, and every
/// other character for itself.
pub proof fn words_stand_for_their_text(left: Seq<char>, right: Seq<char>, fields: Fields)
    ensures
        arguments(doubled(left), fields) == Some(seq![left]),
        arguments(doubled(left) + seq!['%', 'c'] + doubled(right), fields) == Some(
            seq![
                left + (if fields.name is Some {
                    fields.name->0
                } else {
                    Seq::empty()
                }) + right,
            ],
        ),
        arguments(doubled(left) + seq!['%', 'k'] + doubled(right), fields) == Some(
            seq![left + fields.location + right],
        ),
{
    let none = Seq::<char>::empty();
    assert(expanded(none, fields) == Some(Expansion { text: none, coded: false }));
    lemma_doubled(none, fields, left);
    assert(none + doubled(left) =~= doubled(left));
    assert(none + left =~= left);
    lemma_not_left_out(left);
    let read = doubled(left);
    lemma_code(left, right, 'c', fields);
    lemma_code(left, right, 'k', fields);
    let named = read + seq!['%', 'c'];
    let placed = read + seq!['%', 'k'];
    lemma_doubled(named, fields, right);
    lemma_doubled(placed, fields, right);
}

/// A field code is read after a text, and the word that holds it is not one
/// that is left out.
proof fn lemma_code(left: Seq<char>, right: Seq<char>, code: char, fields: Fields)
    requires
        code == 'c' || code == 'k',
    ensures
        ({
            let word = doubled(left) + seq!['%', code];
            &&& expanded(word, fields) == Some(
                Expansion {
                    text: left + (if code == 'k' {
                        fields.location
                    } else if fields.name is Some {
                        fields.name->0
                    } else {
                        Seq::empty()
                    }),
                    coded: false,
                },
            )
            &&& !left_out(word + doubled(right))
            &&& word + doubled(right) != "%i"@
        }),
{
    let none = Seq::<char>::empty();
    assert(expanded(none, fields) == Some(Expansion { text: none, coded: false }));
    lemma_doubled(none, fields, left);
    assert(none + doubled(left) =~= doubled(left));
    assert(none + left =~= left);
    let read = doubled(left);
    let word = read + seq!['%', code];
    assert(word =~= read.push('%').push(code));
    lemma_expand_on(read, '%', fields);
    lemma_expand_on(read.push('%'), code, fields);
    lemma_codes();
    let all = word + doubled(right);
    if all.len() == 2 {
        assert(read.len() == 0);
        assert(all[1] == code);
    }
}

/// The words that stand for a list of arguments, by their characters.
proof fn lemma_codes()
    ensures
        forall|word: Seq<char>| #[trigger]
            left_out(word) <==> {
                &&& word.len() == 2 && word[0] == '%'
                &&& word[1] == 'f' || word[1] == 'F' || word[1] == 'u' || word[1] == 'U' || word[1]
                    == 'd' || word[1] == 'D' || word[1] == 'n' || word[1] == 'N' || word[1] == 'v'
                    || word[1] == 'm'
            },
        "%i"@ == seq!['%', 'i'],
{
    reveal_strlit("%f");
    reveal_strlit("%F");
    reveal_strlit("%u");
    reveal_strlit("%U");
    reveal_strlit("%d");
    reveal_strlit("%D");
    reveal_strlit("%n");
    reveal_strlit("%N");
    reveal_strlit("%v");
    reveal_strlit("%m");
    reveal_strlit("%i");
    assert("%i"@ =~= seq!['%', 'i']);
    assert forall|word: Seq<char>| #[trigger] left_out(word) <==> {
        &&& word.len() == 2 && word[0] == '%'
        &&& word[1] == 'f' || word[1] == 'F' || word[1] == 'u' || word[1] == 'U' || word[1] == 'd'
            || word[1] == 'D' || word[1] == 'n' || word[1] == 'N' || word[1] == 'v' || word[1]
            == 'm'
    } by {
        if word.len() == 2 && word[0] == '%' {
            assert(word[1] == 'f' ==> word =~= "%f"@);
            assert(word[1] == 'F' ==> word =~= "%F"@);
            assert(word[1] == 'u' ==> word =~= "%u"@);
            assert(word[1] == 'U' ==> word =~= "%U"@);
            assert(word[1] == 'd' ==> word =~= "%d"@);
            assert(word[1] == 'D' ==> word =~= "%D"@);
            assert(word[1] == 'n' ==> word =~= "%n"@);
            assert(word[1] == 'N' ==> word =~= "%N"@);
            assert(word[1] == 'v' ==> word =~= "%v"@);
            assert(word[1] == 'm' ==> word =~= "%m"@);
        }
    }
}

/// A text with doubled percent signs is no field code by itself.
proof fn lemma_not_left_out(text: Seq<char>)
    ensures
        !left_out(doubled(text)),
        doubled(text) != "%i"@,
{
    lemma_codes();
    let word = doubled(text);
    if word.len() == 2 && word[0] == '%' && word[1] != '%' {
        let rest = text.drop_last();
        assert(text.last() != '%');
        let less = doubled(rest);
        assert(word =~= less.push(text.last()));
        assert(less.len() == 1 && less[0] == '%');
        assert(rest.last() != '%');
        assert(less =~= doubled(rest.drop_last()).push(rest.last()));
    }
}

/// A word that is a code for files or links, or one that is no longer used, is
/// left out; `%i` stands for the icon after its option, where there is one.
pub proof fn list_codes_stand_alone(code: char, fields: Fields)
    ensures
        code == 'f' || code == 'F' || code == 'u' || code == 'U' || code == 'd' || code == 'D'
            || code == 'n' || code == 'N' || code == 'v' || code == 'm' ==> arguments(
            seq!['%', code],
            fields,
        ) == Some(Seq::<Seq<char>>::empty()),
        fields.icon is Some ==> arguments(seq!['%', 'i'], fields) == Some(
            seq!["--icon"@, fields.icon->0],
        ),
        fields.icon is None ==> arguments(seq!['%', 'i'], fields) == Some(
            Seq::<Seq<char>>::empty(),
        ),
{
    lemma_codes();
    let word = seq!['%', code];
    assert(word.len() == 2 && word[0] == '%' && word[1] == code);
    let icon = seq!['%', 'i'];
    assert(icon[1] == 'i');
    assert(!left_out(icon));
}

/// A code that is not known, or that stands for a list within a word, is refused,
/// and so is a percent sign at the end.
pub proof fn unknown_codes_are_refused(
    left: Seq<char>,
    code: char,
    right: Seq<char>,
    fields: Fields,
)
    requires
        code != '%' && code != 'c' && code != 'k',
        left.len() > 0 || right.len() > 0,
    ensures
        arguments(doubled(left) + seq!['%', code] + right, fields) is None,
        arguments(doubled(left).push('%'), fields) is None,
{
    let none = Seq::<char>::empty();
    assert(expanded(none, fields) == Some(Expansion { text: none, coded: false }));
    lemma_doubled(none, fields, left);
    assert(none + doubled(left) =~= doubled(left));
    let read = doubled(left);
    let word = read + seq!['%', code];
    assert(word =~= read.push('%').push(code));
    lemma_expand_on(read, '%', fields);
    lemma_expand_on(read.push('%'), code, fields);
    assert(expanded(word, fields) is None);
    let all = word + right;
    assert(all.take(word.len() as int) =~= word);
    lemma_expansion_fails(all, fields, word.len() as int);
    lemma_codes();
    if left.len() > 0 {
        assert(read.len() > 0);
    }
    assert(all.len() > 2);
    let ended = read.push('%');
    assert(ended.last() == '%');
    if ended.len() == 2 {
        assert(ended[1] == '%');
    }
}

/// The arguments of words are those of the first ones and then those of the
/// others.
pub proof fn arguments_come_word_by_word(
    first: Seq<Seq<char>>,
    second: Seq<Seq<char>>,
    fields: Fields,
)
    ensures
        all_arguments(first + second, fields) == (match (
            all_arguments(first, fields),
            all_arguments(second, fields),
        ) {
            (Some(before), Some(after)) => Some(before + after),
            _ => None,
        }),
        first.len() == 1 ==> all_arguments(first, fields) == arguments(first[0], fields),
    decreases second.len(),
{
    assert(all_arguments(Seq::<Seq<char>>::empty(), fields) == Some(Seq::<Seq<char>>::empty()));
    if first.len() == 1 {
        assert(first.drop_last() =~= Seq::<Seq<char>>::empty());
        if let Some(list) = arguments(first[0], fields) {
            assert(Seq::<Seq<char>>::empty() + list =~= list);
        }
    }
    if second.len() == 0 {
        assert(first + second =~= first);
        if let Some(before) = all_arguments(first, fields) {
            assert(before + Seq::<Seq<char>>::empty() =~= before);
        }
    } else {
        arguments_come_word_by_word(first, second.drop_last(), fields);
        assert((first + second).drop_last() =~= first + second.drop_last());
        assert((first + second).last() == second.last());
        if all_arguments(first, fields) is Some && all_arguments(second, fields) is Some {
            let before = all_arguments(first, fields)->0;
            let middle = all_arguments(second.drop_last(), fields)->0;
            let last = arguments(second.last(), fields)->0;
            assert(before + middle + last =~= before + (middle + last));
        }
    }
}

/// A value has a command line exactly where it is well formed, its codes may
/// stand where they do, and its first argument is there and sets no variable; the
/// command line is the arguments of its words.
pub proof fn command_lines_start_with_a_program(
    exec: &str,
    name: Option<String>,
    location: &str,
    icon: Option<String>,
    words: Vec<String>,
    result: Result<Vec<String>, ControllerError>,
)
    requires
        call_ensures(expand_command, (exec, &name, location, &icon), result),
        call_ensures(tokenize_exec, (exec,), Ok::<Vec<String>, ControllerError>(words)),
    ensures
        ({
            let all = all_arguments(texts(words@), fields_of(name, location@, icon));
            &&& result is Ok <==> all is Some && all->0.len() > 0 && !all->0[0].contains('=')
            &&& result is Ok ==> texts(result->Ok_0@) == all->0
            &&& result is Err ==> result->Err_0.code == ErrorCode::InvalidInput
        }),
{
}

} // verus!
