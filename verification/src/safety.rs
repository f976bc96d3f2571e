//! Which display a server may take control of.

use vstd::prelude::*;

use crate::text;

verus! {

/// A display, with local forms of its name made equal.
#[derive(Debug, PartialEq, Eq)]
pub struct DisplayIdentity {
    pub host: String,
    pub display: u16,
    pub screen: u16,
}

/// The host, display number and screen number of a display.
pub type Identity = (Seq<char>, u16, u16);

impl View for DisplayIdentity {
    type V = Identity;

    open spec fn view(&self) -> Identity {
        (self.host@, self.display, self.screen)
    }
}

/// The host part of a display name, which is empty where it means this machine.
pub open spec fn local_host(host: Seq<char>) -> Seq<char> {
    if host == "unix"@ || host == "localhost"@ {
        Seq::empty()
    } else {
        host
    }
}

/// The number parts of a display name: display, and screen or zero.
pub open spec fn numbers(tail: Seq<char>) -> (Seq<char>, Seq<char>) {
    match text::split_first(tail, '.') {
        Some(parts) => parts,
        None => (tail, "0"@),
    }
}

/// The display that a name without surrounding white space means, or why it means none.
pub open spec fn identity(name: Seq<char>) -> Result<Identity, Seq<char>> {
    match text::split_last(name, ':') {
        None => Err(
            "invalid X11 display "@ + text::debug_text(name)
                + "; expected HOST:DISPLAY[.SCREEN]"@,
        ),
        Some((host, tail)) => match text::parsed_u16(numbers(tail).0) {
            None => Err("invalid X11 display number in "@ + text::debug_text(name)),
            Some(display) => match text::parsed_u16(numbers(tail).1) {
                None => Err("invalid X11 screen number in "@ + text::debug_text(name)),
                Some(screen) => Ok((text::ascii_folded(local_host(host)), display, screen)),
            },
        },
    }
}

/// Whether a result is the one that a specification names.
pub open spec fn identity_result(
    result: Result<DisplayIdentity, String>,
    expected: Result<Identity, Seq<char>>,
) -> bool {
    match (result, expected) {
        (Ok(found), Ok(wanted)) => found@ == wanted,
        (Err(found), Err(wanted)) => found@ == wanted,
        _ => false,
    }
}

/// Reads a display name of the form `HOST:DISPLAY[.SCREEN]`.
pub fn parse_display(value: &str) -> (result: Result<DisplayIdentity, String>)
    ensures
        identity_result(result, identity(text::trimmed(value@))),
{
    let name = text::trim(value);
    let quoted = text::format_debug(name.as_str());
    let (host, tail) = match text::rsplit_once(name.as_str(), ':') {
        Some(parts) => parts,
        None => {
            return Err(
                "invalid X11 display ".to_owned().concat(quoted.as_str()).concat(
                    "; expected HOST:DISPLAY[.SCREEN]",
                ),
            );
        },
    };
    let host = if text::same_text(host.as_str(), "unix") || text::same_text(
        host.as_str(),
        "localhost",
    ) {
        String::new()
    } else {
        host
    };
    assert(host@ =~= local_host((text::split_last(name@, ':')->0).0));
    let (display, screen) = match text::split_once(tail.as_str(), '.') {
        Some(parts) => parts,
        None => (tail, "0".to_owned()),
    };
    let display = match text::parse_u16(display.as_str()) {
        Some(number) => number,
        None => {
            return Err("invalid X11 display number in ".to_owned().concat(quoted.as_str()));
        },
    };
    let screen = match text::parse_u16(screen.as_str()) {
        Some(number) => number,
        None => {
            return Err("invalid X11 screen number in ".to_owned().concat(quoted.as_str()));
        },
    };
    Ok(DisplayIdentity { host: text::to_ascii_lowercase(host.as_str()), display, screen })
}

/// Why a display may not be taken control of, if so.
///
/// An unreadable name is refused. A readable one is admitted outright where
/// the host display is allowed. Otherwise it must differ from the inherited
/// display, and without an inherited display it must not be the first local
/// one.
pub open spec fn refusal(
    target: Seq<char>,
    inherited: Option<Seq<char>>,
    allow_host_display: bool,
) -> Option<Seq<char>> {
    match identity(text::trimmed(target)) {
        Err(message) => Some(message),
        Ok(wanted) => if allow_host_display {
            None
        } else {
            match inherited {
                Some(name) => match identity(text::trimmed(name)) {
                    Err(message) => Some(message),
                    Ok(host) => if host == wanted {
                        Some(
                            "refusing inherited host display "@ + text::debug_text(target)
                                + "; use --allow-host-display or an isolated Xvfb/Xephyr display"@,
                        )
                    } else {
                        None
                    },
                },
                None => if wanted.0.len() == 0 && wanted.1 == 0 {
                    Some(
                        "refusing likely host display "@ + text::debug_text(target)
                            + "; use --allow-host-display or an isolated Xvfb/Xephyr display"@,
                    )
                } else {
                    None
                },
            }
        },
    }
}

/// The text of an optional string slice.
pub open spec fn opt_str(value: Option<&str>) -> Option<Seq<char>> {
    match value {
        Some(name) => Some(name@),
        None => None,
    }
}

/// Refuses a display that is or may be the host's, unless that is allowed.
pub fn validate_target_display(
    target: &str,
    inherited: Option<&str>,
    allow_host_display: bool,
) -> (result: Result<(), String>)
    ensures
        match (result, refusal(target@, opt_str(inherited), allow_host_display)) {
            (Ok(()), None) => true,
            (Err(message), Some(expected)) => message@ == expected,
            _ => false,
        },
{
    let wanted = match parse_display(target) {
        Ok(found) => found,
        Err(message) => {
            return Err(message);
        },
    };
    if allow_host_display {
        return Ok(());
    }
    match inherited {
        Some(name) => {
            let host = match parse_display(name) {
                Ok(found) => found,
                Err(message) => {
                    return Err(message);
                },
            };
            if host.host == wanted.host && host.display == wanted.display && host.screen
                == wanted.screen {
                return Err(
                    "refusing inherited host display ".to_owned().concat(
                        text::format_debug(target).as_str(),
                    ).concat("; use --allow-host-display or an isolated Xvfb/Xephyr display"),
                );
            }
        },
        None => {
            if wanted.host.as_str().is_empty() && wanted.display == 0 {
                return Err(
                    "refusing likely host display ".to_owned().concat(
                        text::format_debug(target).as_str(),
                    ).concat("; use --allow-host-display or an isolated Xvfb/Xephyr display"),
                );
            }
        },
    }
    Ok(())
}

/// A display is never admitted in place of the inherited one without leave: a
/// name with the identity of the inherited display is refused.
pub proof fn inherited_display_is_refused(target: Seq<char>, inherited: Seq<char>)
    requires
        identity(text::trimmed(target)) == identity(text::trimmed(inherited)),
    ensures
        refusal(target, Some(inherited), false) is Some,
{
}

/// The names `:N`, `unix:N` and `localhost:N` mean one display, and so do a
/// name without a screen and the same name with screen zero.
pub proof fn local_forms_are_one_display(tail: Seq<char>)
    requires
        !tail.contains(':'),
        identity(seq![':'] + tail) is Ok,
    ensures
        identity("unix"@ + seq![':'] + tail) == identity(seq![':'] + tail),
        identity("localhost"@ + seq![':'] + tail) == identity(seq![':'] + tail),
        !tail.contains('.') ==> identity(seq![':'] + tail + seq!['.', '0']) == identity(
            seq![':'] + tail,
        ),
{
    lemma_split_at_colon(Seq::empty(), tail);
    lemma_split_at_colon("unix"@, tail);
    lemma_split_at_colon("localhost"@, tail);
    assert(Seq::<char>::empty() + seq![':'] + tail =~= seq![':'] + tail);
    reveal_strlit("unix");
    reveal_strlit("localhost");
    reveal_strlit("0");
    assert(text::ascii_folded(Seq::empty()) =~= Seq::<char>::empty());
    if !tail.contains('.') {
        let dotted = tail + seq!['.', '0'];
        assert forall|i: int| 0 <= i < dotted.len() implies dotted[i] != ':' by {
            if i < tail.len() {
                assert(tail.contains(tail[i]));
            }
        }
        lemma_split_at_colon(Seq::empty(), dotted);
        assert(Seq::<char>::empty() + seq![':'] + dotted =~= seq![':'] + tail + seq!['.', '0']);
        assert forall|i: int| 0 <= i < tail.len() implies dotted[i] != '.' && tail[i] != '.' by {
            assert(tail.contains(tail[i]));
        }
        text::lemma_first_index(dotted, '.', tail.len() as int);
        text::lemma_first_index(tail, '.', tail.len() as int);
        assert(dotted.take(tail.len() as int) =~= tail);
        assert(dotted.skip(tail.len() as int + 1) =~= "0"@);
    }
}

/// A name with one colon splits there.
proof fn lemma_split_at_colon(host: Seq<char>, tail: Seq<char>)
    requires
        !tail.contains(':'),
    ensures
        text::split_last(host + seq![':'] + tail, ':') == Some((host, tail)),
{
    let name = host + seq![':'] + tail;
    assert forall|i: int| host.len() < i < name.len() implies name[i] != ':' by {
        assert(name[i] == tail[i - host.len() - 1]);
        assert(tail.contains(tail[i - host.len() - 1]));
    }
    text::lemma_last_index(name, ':', host.len() as int);
    assert(name.take(host.len() as int) =~= host);
    assert(name.skip(host.len() as int + 1) =~= tail);
}

/// A display name means the host before its last colon, the display number
/// after it, and the screen number after a dot or screen zero.
pub proof fn names_mean_their_numbers(host: Seq<char>, display: u16, screen: u16)
    requires
        host != "unix"@,
        host != "localhost"@,
    ensures
        identity(
            host + seq![':'] + text::decimal(display as nat) + seq!['.'] + text::decimal(
                screen as nat,
            ),
        ) == Ok::<Identity, Seq<char>>((text::ascii_folded(host), display, screen)),
        identity(host + seq![':'] + text::decimal(display as nat)) == Ok::<Identity, Seq<char>>(
            (text::ascii_folded(host), display, 0),
        ),
{
    let number = text::decimal(display as nat);
    let part = text::decimal(screen as nat);
    lemma_number(display);
    lemma_number(screen);
    lemma_number(0);
    let tail = number + seq!['.'] + part;
    assert forall|i: int| 0 <= i < tail.len() implies tail[i] != ':' by {
        if i < number.len() {
            assert(number[i] != ':');
        } else if i > number.len() {
            assert(tail[i] == part[i - number.len() - 1]);
        }
    }
    lemma_split_at_colon(host, tail);
    lemma_split_at_colon(host, number);
    assert(host + seq![':'] + tail =~= host + seq![':'] + number + seq!['.'] + part);
    text::lemma_first_index(tail, '.', number.len() as int);
    text::lemma_first_index(number, '.', number.len() as int);
    assert(tail.take(number.len() as int) =~= number);
    assert(tail.skip(number.len() as int + 1) =~= part);
    reveal_strlit("0");
    assert("0"@ =~= text::decimal(0));
}

/// A number is read back from its decimal digits, which hold no separator.
proof fn lemma_number(n: u16)
    ensures
        text::parsed_u16(text::decimal(n as nat)) == Some(n),
        forall|i: int|
            0 <= i < text::decimal(n as nat).len() ==> {
                let c = #[trigger] text::decimal(n as nat)[i];
                c != ':' && c != '.'
            },
{
    text::decimal_forms_read_back(n as nat);
    text::lemma_decimal_digits(n as nat);
}

/// A readable display may be taken control of where the host display is
/// allowed. Otherwise it may be where it differs from the inherited display in
/// host, number or screen, and without an inherited display where it is on
/// another host or is not number zero.
pub proof fn only_other_displays_are_taken(
    target: &str,
    inherited: Option<&str>,
    allow_host_display: bool,
    result: Result<(), String>,
    wanted: DisplayIdentity,
    host: DisplayIdentity,
)
    requires
        call_ensures(validate_target_display, (target, inherited, allow_host_display), result),
        call_ensures(parse_display, (target,), Ok::<DisplayIdentity, String>(wanted)),
        inherited is Some ==> call_ensures(
            parse_display,
            (inherited->0,),
            Ok::<DisplayIdentity, String>(host),
        ),
    ensures
        allow_host_display ==> result is Ok,
        !allow_host_display && inherited is Some ==> (result is Ok <==> wanted.host@ != host.host@
            || wanted.display != host.display || wanted.screen != host.screen),
        !allow_host_display && inherited is None ==> (result is Ok <==> wanted.host@.len() > 0
            || wanted.display != 0),
{
}

/// A name that cannot be read is refused, whatever is allowed.
pub proof fn unreadable_names_are_refused(
    target: &str,
    inherited: Option<&str>,
    allow_host_display: bool,
    result: Result<(), String>,
)
    requires
        call_ensures(validate_target_display, (target, inherited, allow_host_display), result),
    ensures
        !text::trimmed(target@).contains(':') ==> result is Err,
        identity(text::trimmed(target@)) is Err ==> result is Err,
        !allow_host_display && inherited is Some && identity(
            text::trimmed(inherited->0@),
        ) is Err ==> result is Err,
{
    text::splitting_takes_the_outermost_character(text::trimmed(target@), ':');
    let name = text::trimmed(target@);
    if let Some((left, right)) = text::split_last(name, ':') {
        assert(name[left.len() as int] == ':');
    }
}

} // verus!
