//! The clipboard, and the display session it belongs to.
//!
//! The clipboard needs a display: the one in the environment, or one found by
//! its socket. What is found is decided here; looking into directories and
//! files and setting the environment is left to the caller.
use crate::number::{decimal, decimal_text, parse_u32, u32_value};
use crate::path::{
    is_path_before, is_text_before, join, joined, lemma_parts_asymmetric, lemma_parts_between,
    lemma_text_asymmetric, lemma_text_between, parts_before, path_before, path_parts, text_before,
};
use crate::text::{
    after_prefix, chars_of, chars_view, interleaved, law_texts_are_the_pieces, lines, lines_of,
    pieces, split, strip_prefix, text_of,
};
use std::cmp::Ordering;
use vstd::prelude::*;
use vstd::string::*;

verus! {

/// Where the runtime directories of the users are.
pub const RUN_USER_DIR: &'static str = "/run/user";

/// Where the sockets of X servers are.
pub const X11_SOCKET_DIR: &'static str = "/tmp/.X11-unix";

/// Where the home directories of the users are listed.
pub const PASSWD_FILE: &'static str = "/etc/passwd";

pub const WAYLAND_DISPLAY_ENV: &'static str = "WAYLAND_DISPLAY";

pub const XDG_RUNTIME_DIR_ENV: &'static str = "XDG_RUNTIME_DIR";

pub const DISPLAY_ENV: &'static str = "DISPLAY";

pub const XAUTHORITY_ENV: &'static str = "XAUTHORITY";

pub const WAYLAND_DISPLAY_PREFIX: &'static str = "wayland-";

pub const XAUTHORITY_FILE: &'static str = ".Xauthority";

pub const GDM_XAUTHORITY_PATH: &'static str = "gdm/Xauthority";

/// An operation asked of a clipboard, and what came of it.
#[verifier::ext_equal]
pub enum ClipboardExchange {
    Read(std::result::Result<String, String>),
    Write(Seq<char>, std::result::Result<(), String>),
}

/// Clipboard operations needed by the event loop. Implemented for the system
/// clipboard; fakeable in tests.
///
/// Every operation adds itself and its result to the clipboard's log.
pub trait ClipboardOps {
    /// The operations asked of the clipboard so far and their results, oldest
    /// first. An implementation that keeps such a log says here where it is;
    /// for one that does not it is some function of the clipboard.
    closed spec fn log(&self) -> Seq<ClipboardExchange> {
        let log = choose|log: spec_fn(&Self) -> Seq<ClipboardExchange>| #[trigger]
            log(self).len() >= 0;
        log(self)
    }

    fn get_text(&mut self) -> (result: std::result::Result<String, String>)
        ensures
            final(self).log() == old(self).log().push(ClipboardExchange::Read(result)),
    ;

    fn set_text(&mut self, text: &str) -> (result: std::result::Result<(), String>)
        ensures
            final(self).log() == old(self).log().push(ClipboardExchange::Write(text@, result)),
    ;
}

// ---------------------------------------------------------------------------
// Sessions
// ---------------------------------------------------------------------------

/// A display session.
#[derive(Debug)]
pub enum DisplaySession {
    Wayland { runtime_dir: String, display: String },
    X11 { display: String, xauthority: Option<String> },
}

/// Environment variables with their values.
pub open spec fn variables_view(variables: Seq<(&'static str, String)>) -> Seq<
    (Seq<char>, Seq<char>),
> {
    variables.map_values(|variable: (&'static str, String)| (variable.0@, variable.1@))
}

impl DisplaySession {
    /// The environment variables that lead to the session.
    pub open spec fn variables(self) -> Seq<(Seq<char>, Seq<char>)> {
        match self {
            DisplaySession::Wayland { runtime_dir, display } => seq![
                (XDG_RUNTIME_DIR_ENV@, runtime_dir@),
                (WAYLAND_DISPLAY_ENV@, display@),
            ],
            DisplaySession::X11 { display, xauthority } => match xauthority {
                Some(path) => seq![(DISPLAY_ENV@, display@), (XAUTHORITY_ENV@, path@)],
                None => seq![(DISPLAY_ENV@, display@)],
            },
        }
    }

    /// The environment variables to set so that the session is used.
    pub fn configure_environment(&self) -> (variables: Vec<(&'static str, String)>)
        ensures
            variables_view(variables@) == self.variables(),
    {
        let mut variables: Vec<(&'static str, String)> = Vec::new();
        match self {
            DisplaySession::Wayland { runtime_dir, display } => {
                variables.push((XDG_RUNTIME_DIR_ENV, runtime_dir.clone()));
                variables.push((WAYLAND_DISPLAY_ENV, display.clone()));
            },
            DisplaySession::X11 { display, xauthority } => {
                variables.push((DISPLAY_ENV, display.clone()));
                match xauthority {
                    Some(path) => {
                        variables.push((XAUTHORITY_ENV, path.clone()));
                    },
                    None => {},
                }
            },
        }
        assert(variables_view(variables@) =~= self.variables());
        variables
    }
}

/// What to do about the display environment.
#[derive(Debug, Clone, Copy, PartialEq, Eq, Structural)]
pub enum DisplayPlan {
    /// Nothing: it leads to a Wayland session.
    KeepWayland,
    /// It names an X11 display. Make sure that its authority file is named.
    KeepX11,
    /// It leads nowhere. Discover a session and configure it; without one
    /// there is no clipboard.
    Discover,
}

/// What to do about the display environment.
pub open spec fn display_plan(has_valid_wayland: bool, has_x11: bool) -> DisplayPlan {
    if has_valid_wayland {
        DisplayPlan::KeepWayland
    } else if has_x11 {
        DisplayPlan::KeepX11
    } else {
        DisplayPlan::Discover
    }
}

/// The session to use of those that were found.
pub open spec fn preferred_session(
    wayland: Option<DisplaySession>,
    x11: Option<DisplaySession>,
) -> Option<DisplaySession> {
    if wayland is Some {
        wayland
    } else {
        x11
    }
}

/// Decides what to do about the display environment: whether it leads to a
/// Wayland socket, and whether it names an X11 display. Wayland is preferred.
pub fn ensure_display_environment(has_valid_wayland: bool, has_x11: bool) -> (plan: DisplayPlan)
    ensures
        plan == display_plan(has_valid_wayland, has_x11),
{
    if has_valid_wayland {
        DisplayPlan::KeepWayland
    } else if has_x11 {
        DisplayPlan::KeepX11
    } else {
        DisplayPlan::Discover
    }
}

/// The session to use. Wayland is preferred over X11.
pub fn discover_display_session(
    wayland: Option<DisplaySession>,
    x11: Option<DisplaySession>,
) -> (session: Option<DisplaySession>)
    ensures
        session == preferred_session(wayland, x11),
{
    match wayland {
        Some(session) => Some(session),
        None => x11,
    }
}

// ---------------------------------------------------------------------------
// Wayland
// ---------------------------------------------------------------------------

/// Whether a file name is that of a Wayland socket.
pub open spec fn names_wayland_socket(name: Seq<char>) -> bool {
    match after_prefix(name, WAYLAND_DISPLAY_PREFIX@) {
        Some(suffix) => u32_value(suffix) is Some,
        None => false,
    }
}

/// Whether a file name is that of a Wayland socket.
pub fn is_wayland_socket_name(name: &str) -> (socket: bool)
    ensures
        socket == names_wayland_socket(name@),
{
    match strip_prefix(name, WAYLAND_DISPLAY_PREFIX) {
        Some(suffix) => parse_u32(suffix.as_slice()).is_some(),
        None => false,
    }
}

/// Whether one Wayland session comes before another: by runtime directory,
/// then by display.
pub open spec fn session_before(
    left: (Seq<char>, Seq<char>),
    right: (Seq<char>, Seq<char>),
) -> bool {
    path_before(left.0, right.0) || (!path_before(right.0, left.0) && text_before(left.1, right.1))
}

/// Whether one Wayland session comes before another.
fn is_session_before(
    left_dir: &str,
    left_display: &str,
    right_dir: &str,
    right_display: &str,
) -> (before: bool)
    ensures
        before == session_before((left_dir@, left_display@), (right_dir@, right_display@)),
{
    is_path_before(left_dir, right_dir) || (!is_path_before(right_dir, left_dir)
        && is_text_before(chars_of(left_display).as_slice(), chars_of(right_display).as_slice()))
}

/// The runtime directory and display of a Wayland session.
pub open spec fn wayland_key(session: DisplaySession) -> (Seq<char>, Seq<char>) {
    match session {
        DisplaySession::Wayland { runtime_dir, display } => (runtime_dir@, display@),
        DisplaySession::X11 { display, .. } => (Seq::empty(), display@),
    }
}

/// The order of two Wayland sessions: by runtime directory, then by display.
pub fn wayland_session_ordering(left: &DisplaySession, right: &DisplaySession) -> (order: Ordering)
    requires
        left is Wayland,
        right is Wayland,
    ensures
        order == if session_before(wayland_key(*left), wayland_key(*right)) {
            Ordering::Less
        } else if session_before(wayland_key(*right), wayland_key(*left)) {
            Ordering::Greater
        } else {
            Ordering::Equal
        },
{
    match (left, right) {
        (
            DisplaySession::Wayland { runtime_dir: left_dir, display: left_display },
            DisplaySession::Wayland { runtime_dir: right_dir, display: right_display },
        ) => {
            if is_session_before(
                left_dir.as_str(),
                left_display.as_str(),
                right_dir.as_str(),
                right_display.as_str(),
            ) {
                Ordering::Less
            } else if is_session_before(
                right_dir.as_str(),
                right_display.as_str(),
                left_dir.as_str(),
                left_display.as_str(),
            ) {
                Ordering::Greater
            } else {
                Ordering::Equal
            }
        },
        _ => Ordering::Equal,
    }
}

/// A file in a runtime directory.
#[derive(Debug)]
pub struct RuntimeFile {
    pub runtime_dir: String,
    pub name: String,
    pub is_socket: bool,
}

/// Whether a file is a Wayland socket.
pub open spec fn is_wayland_socket(file: RuntimeFile) -> bool {
    names_wayland_socket(file.name@) && file.is_socket
}

/// Where a file comes in the order of Wayland sessions.
pub open spec fn file_key(file: RuntimeFile) -> (Seq<char>, Seq<char>) {
    (file.runtime_dir@, file.name@)
}

/// Whether file `i` is the Wayland socket to use: no other comes before it,
/// and none that came earlier is as good.
pub open spec fn is_first_socket(files: Seq<RuntimeFile>, i: int) -> bool {
    &&& 0 <= i < files.len()
    &&& is_wayland_socket(files[i])
    &&& forall|j: int|
        0 <= j < files.len() && is_wayland_socket(#[trigger] files[j]) ==> !session_before(
            file_key(files[j]),
            file_key(files[i]),
        )
    &&& forall|j: int|
        0 <= j < i && is_wayland_socket(#[trigger] files[j]) ==> session_before(
            file_key(files[i]),
            file_key(files[j]),
        )
}

/// Of two Wayland sessions at most one comes before the other, and one between
/// two others comes after the first or before the second: the order is one
/// that has a least session.
pub proof fn law_sessions_are_ordered(
    a: (Seq<char>, Seq<char>),
    b: (Seq<char>, Seq<char>),
    c: (Seq<char>, Seq<char>),
)
    ensures
        !(session_before(a, b) && session_before(b, a)),
        session_before(a, c) ==> session_before(a, b) || session_before(b, c),
{
    let (x, y, z) = (path_parts(a.0), path_parts(b.0), path_parts(c.0));
    lemma_parts_asymmetric(x, y);
    lemma_parts_asymmetric(y, z);
    lemma_parts_asymmetric(x, z);
    lemma_text_asymmetric(a.1, b.1);
    if parts_before(x, z) {
        lemma_parts_between(x, y, z);
    }
    if parts_before(y, x) {
        lemma_parts_between(y, z, x);
    }
    if parts_before(z, y) {
        lemma_parts_between(z, x, y);
    }
    if text_before(a.1, c.1) {
        lemma_text_between(a.1, b.1, c.1);
    }
}

/// Discovers a Wayland session: the first, in order, of the files that are
/// Wayland sockets.
pub fn discover_wayland_session(files: &[RuntimeFile]) -> (session: Option<DisplaySession>)
    ensures
        match session {
            Some(session) => session is Wayland && exists|i: int| #[trigger]
                is_first_socket(files@, i) && wayland_key(session) == file_key(files@[i]),
            None => forall|i: int| 0 <= i < files@.len() ==> !is_wayland_socket(#[trigger] files@[i]),
        },
{
    let mut best: Option<usize> = None;
    let mut i: usize = 0;
    while i < files.len()
        invariant
            i <= files@.len(),
            match best {
                Some(best) => is_first_socket(files@.take(i as int), best as int),
                None => forall|j: int| 0 <= j < i ==> !is_wayland_socket(#[trigger] files@[j]),
            },
        decreases files@.len() - i,
    {
        let file = &files[i];
        let ghost seen = files@.take(i as int);
        let ghost next = files@.take(i + 1);
        assert(forall|j: int| 0 <= j < i ==> #[trigger] next[j] == seen[j]);
        assert(next[i as int] == file);
        if file.is_socket && is_wayland_socket_name(file.name.as_str()) {
            match best {
                Some(at) => {
                    let other = &files[at];
                    assert(seen[at as int] == other);
                    if is_session_before(
                        file.runtime_dir.as_str(),
                        file.name.as_str(),
                        other.runtime_dir.as_str(),
                        other.name.as_str(),
                    ) {
                        proof {
                            let (new, old_best) = (file_key(*file), file_key(*other));
                            law_sessions_are_ordered(new, new, new);
                            assert forall|j: int|
                                0 <= j < i && is_wayland_socket(#[trigger] next[j]) implies {
                                &&& !session_before(file_key(next[j]), new)
                                &&& session_before(new, file_key(next[j]))
                            } by {
                                let key = file_key(next[j]);
                                assert(seen[j] == next[j]);
                                law_sessions_are_ordered(new, key, old_best);
                            }
                        }
                        best = Some(i);
                    }
                },
                None => {
                    proof {
                        let new = file_key(*file);
                        law_sessions_are_ordered(new, new, new);
                        assert forall|j: int| 0 <= j < i implies !is_wayland_socket(
                            #[trigger] next[j],
                        ) by {
                            assert(files@[j] == next[j]);
                        }
                    }
                    best = Some(i);
                },
            }
        }
        i += 1;
    }
    assert(files@.take(i as int) =~= files@);
    match best {
        Some(at) => {
            let file = &files[at];
            assert(is_first_socket(files@, at as int));
            Some(
                DisplaySession::Wayland {
                    runtime_dir: file.runtime_dir.clone(),
                    display: file.name.clone(),
                },
            )
        },
        None => None,
    }
}

// ---------------------------------------------------------------------------
// X11
// ---------------------------------------------------------------------------

/// The display number in the name of an X server's socket.
pub open spec fn socket_display(name: Seq<char>) -> Option<u32> {
    match after_prefix(name, "X"@) {
        Some(number) => u32_value(number),
        None => None,
    }
}

/// The display number in the name of an X server's socket.
pub fn parse_x11_display(name: &str) -> (number: Option<u32>)
    ensures
        number == socket_display(name@),
{
    match strip_prefix(name, "X") {
        Some(number) => parse_u32(number.as_slice()),
        None => None,
    }
}

/// A file in the directory of X server sockets, with the authority file found
/// for it.
#[derive(Debug)]
pub struct X11Socket {
    pub name: String,
    pub xauthority: Option<String>,
}

/// Whether socket `i` is that of the display to use: the first with the lowest
/// number.
pub open spec fn is_lowest_display(sockets: Seq<X11Socket>, i: int) -> bool {
    &&& 0 <= i < sockets.len()
    &&& socket_display(sockets[i].name@) is Some
    &&& forall|j: int|
        0 <= j < sockets.len() ==> match socket_display((#[trigger] sockets[j]).name@) {
            Some(number) => {
                let lowest = socket_display(sockets[i].name@)->0;
                lowest < number || (lowest == number && i <= j)
            },
            None => true,
        }
}

/// Discovers an X11 session: the display with the lowest number.
pub fn discover_x11_session(sockets: &[X11Socket]) -> (session: Option<DisplaySession>)
    ensures
        match session {
            Some(session) => exists|i: int| #[trigger]
                is_lowest_display(sockets@, i) && (session matches DisplaySession::X11 {
                    display,
                    xauthority,
                } && display@ == ":"@ + decimal(socket_display(sockets@[i].name@)->0 as nat)
                    && optional_view(xauthority) == optional_view(sockets@[i].xauthority)),
            None => forall|i: int|
                0 <= i < sockets@.len() ==> socket_display((#[trigger] sockets@[i]).name@) is None,
        },
{
    let mut best: Option<(usize, u32)> = None;
    let mut i: usize = 0;
    while i < sockets.len()
        invariant
            i <= sockets@.len(),
            match best {
                Some((at, number)) => {
                    &&& is_lowest_display(sockets@.take(i as int), at as int)
                    &&& socket_display(sockets@[at as int].name@) == Some(number)
                },
                None => forall|j: int|
                    0 <= j < i ==> socket_display((#[trigger] sockets@[j]).name@) is None,
            },
        decreases sockets@.len() - i,
    {
        let ghost seen = sockets@.take(i as int);
        let ghost next = sockets@.take(i + 1);
        assert(forall|j: int| 0 <= j < i ==> #[trigger] next[j] == seen[j]);
        assert(forall|j: int| 0 <= j < i ==> #[trigger] next[j] == sockets@[j]);
        assert(next[i as int] == sockets@[i as int]);
        match parse_x11_display(sockets[i].name.as_str()) {
            Some(number) => {
                let lower = match best {
                    Some((_, lowest)) => number < lowest,
                    None => true,
                };
                if lower {
                    best = Some((i, number));
                }
            },
            None => {},
        }
        i += 1;
    }
    assert(sockets@.take(i as int) =~= sockets@);
    match best {
        Some((at, number)) => {
            assert(is_lowest_display(sockets@, at as int));
            let mut display = ":".to_owned();
            display.append(decimal_text(number as u128).as_str());
            let xauthority = match &sockets[at].xauthority {
                Some(path) => Some(path.clone()),
                None => None,
            };
            Some(DisplaySession::X11 { display, xauthority })
        },
        None => None,
    }
}

/// The text of an optional string.
pub open spec fn optional_view(text: Option<String>) -> Option<Seq<char>> {
    match text {
        Some(text) => Some(text@),
        None => None,
    }
}

/// The display number in the name of an X11 display: what stands between the
/// last colon and the next dot.
pub open spec fn display_number(display: Seq<char>) -> Option<u32> {
    let parts = pieces(display, ':');
    if parts.len() < 2 {
        None
    } else {
        u32_value(pieces(parts.last(), '.').first())
    }
}

/// The display number in the name of an X11 display.
pub fn parse_display_number(display: &str) -> (number: Option<u32>)
    ensures
        number == display_number(display@),
{
    let parts = split(chars_of(display).as_slice(), ':');
    if parts.len() < 2 {
        return None;
    }
    let last = &parts[parts.len() - 1];
    assert(last@ == pieces(display@, ':').last());
    let fields = split(last.as_slice(), '.');
    assert(fields@[0]@ == pieces(last@, '.').first());
    parse_u32(fields[0].as_slice())
}

/// The socket of the X server of a display.
pub open spec fn x11_socket(display_number: u32) -> Seq<char> {
    joined(X11_SOCKET_DIR@, "X"@ + decimal(display_number as nat), '/')
}

/// Where a display manager keeps the authority file of a user's session.
pub open spec fn gdm_authority(uid: u32) -> Seq<char> {
    joined(joined(RUN_USER_DIR@, decimal(uid as nat), '/'), GDM_XAUTHORITY_PATH@, '/')
}

/// Where a user keeps the authority file, in the home directory.
pub open spec fn home_authority(home: Seq<char>) -> Seq<char> {
    joined(home, XAUTHORITY_FILE@, '/')
}

/// The socket of the X server of a display.
pub fn x11_socket_path(display_number: u32) -> (path: String)
    ensures
        path@ == x11_socket(display_number),
{
    let mut name = "X".to_owned();
    name.append(decimal_text(display_number as u128).as_str());
    join(X11_SOCKET_DIR, name.as_str())
}

// ---------------------------------------------------------------------------
// Authority files
// ---------------------------------------------------------------------------

/// Where a display manager keeps the authority file of a user's session.
pub fn gdm_xauthority(uid: u32) -> (path: String)
    ensures
        path@ == gdm_authority(uid),
{
    let dir = join(RUN_USER_DIR, decimal_text(uid as u128).as_str());
    join(dir.as_str(), GDM_XAUTHORITY_PATH)
}

/// The home directory in a line of the user list, if the line is for `uid`.
///
/// The format is `username:password:uid:gid:gecos:home:shell`.
pub open spec fn home_in_line(line: Seq<char>, uid: u32) -> Option<Seq<char>> {
    let fields = pieces(line, ':');
    if fields.len() >= 6 && u32_value(fields[2]) == Some(uid) {
        Some(fields[5])
    } else {
        None
    }
}

/// The home directory in the first line for `uid`.
pub open spec fn home_in_lines(lines: Seq<Seq<char>>, uid: u32) -> Option<Seq<char>>
    decreases lines.len(),
{
    if lines.len() == 0 {
        None
    } else if home_in_line(lines.first(), uid) is Some {
        home_in_line(lines.first(), uid)
    } else {
        home_in_lines(lines.drop_first(), uid)
    }
}

/// The home directory of a user, given the text of the user list.
pub fn get_home_directory(passwd: &str, uid: u32) -> (home: Option<String>)
    ensures
        optional_view(home) == home_in_lines(lines_of(passwd@), uid),
{
    let all = lines(chars_of(passwd).as_slice());
    let ghost views = lines_of(passwd@);
    let mut i: usize = 0;
    assert(views.skip(0) =~= views);
    while i < all.len()
        invariant
            i <= all@.len(),
            chars_view(all@) == views,
            views == lines_of(passwd@),
            home_in_lines(views, uid) == home_in_lines(views.skip(i as int), uid),
        decreases all@.len() - i,
    {
        let line = &all[i];
        let fields = split(line.as_slice(), ':');
        proof {
            assert(views[i as int] == line@);
            assert(views.skip(i as int).first() == line@);
            assert(views.skip(i as int).drop_first() =~= views.skip(i + 1));
            assert(pieces(line@, ':').len() == fields@.len());
        }
        if fields.len() >= 6 {
            assert(pieces(line@, ':')[2] == fields@[2]@);
            assert(pieces(line@, ':')[5] == fields@[5]@);
            if parse_u32(fields[2].as_slice()) == Some(uid) {
                let home = &fields[5];
                let text = text_of(home.as_slice(), 0, home.len());
                assert(text@ =~= home@);
                return Some(text);
            }
        }
        i += 1;
    }
    None
}

/// Where a user keeps the authority file, in the home directory.
pub fn home_xauthority(home: &str) -> (path: String)
    ensures
        path@ == home_authority(home@),
{
    join(home, XAUTHORITY_FILE)
}

/// The authority file to use.
pub open spec fn preferred_authority(
    gdm: String,
    gdm_is_file: bool,
    home: Option<String>,
    home_is_file: bool,
) -> Option<String> {
    if gdm_is_file {
        Some(gdm)
    } else if home_is_file {
        home
    } else {
        None
    }
}

/// The authority file to use: the display manager's if it is there, else the
/// one in the home directory if that is there.
pub fn choose_xauthority(
    gdm: String,
    gdm_is_file: bool,
    home: Option<String>,
    home_is_file: bool,
) -> (path: Option<String>)
    ensures
        path == preferred_authority(gdm, gdm_is_file, home, home_is_file),
{
    if gdm_is_file {
        Some(gdm)
    } else if home_is_file {
        home
    } else {
        None
    }
}

// ---------------------------------------------------------------------------
// Laws
// ---------------------------------------------------------------------------

/// A Wayland session is reached by its runtime directory and its display, an
/// X11 session by its display and, where there is one, its authority file.
pub proof fn law_sessions_are_reached_by_their_variables(
    runtime_dir: String,
    display: String,
    authority: String,
)
    ensures
        (DisplaySession::Wayland { runtime_dir, display }).variables() == seq![
            ("XDG_RUNTIME_DIR"@, runtime_dir@),
            ("WAYLAND_DISPLAY"@, display@),
        ],
        (DisplaySession::X11 { display, xauthority: None }).variables() == seq![
            ("DISPLAY"@, display@),
        ],
        (DisplaySession::X11 { display, xauthority: Some(authority) }).variables() == seq![
            ("DISPLAY"@, display@),
            ("XAUTHORITY"@, authority@),
        ],
{
}

/// What follows a prefix is the rest of the text.
proof fn lemma_after_prefix(prefix: Seq<char>, rest: Seq<char>)
    ensures
        after_prefix(prefix + rest, prefix) == Some(rest),
{
    let s = prefix + rest;
    assert(s.subrange(0, prefix.len() as int) =~= prefix);
    assert(s.skip(prefix.len() as int) =~= rest);
}

/// A Wayland socket is named `wayland-` and a number, and nothing else is one.
pub proof fn law_wayland_sockets_are_numbered(name: Seq<char>, n: u32)
    ensures
        names_wayland_socket("wayland-"@ + decimal(n as nat)),
        names_wayland_socket(name) ==> name.len() > 8 && name.take(8) == "wayland-"@ && u32_value(
            name.skip(8),
        ) is Some,
        u32_value(name) is Some ==> names_wayland_socket("wayland-"@ + name),
{
    reveal_strlit("wayland-");
    crate::number::law_decimal_reads_back(n as nat);
    lemma_after_prefix("wayland-"@, decimal(n as nat));
    lemma_after_prefix("wayland-"@, name);
    if names_wayland_socket(name) {
        assert(name.take(8) =~= name.subrange(0, 8));
        crate::number::law_numbers_are_digits(name.skip(8));
        if name.len() == 8 {
            assert(name.skip(8) =~= Seq::empty());
        }
    }
}

/// The socket of display `n` is named `X` and the number, and a name that does
/// not start with `X` is that of none.
pub proof fn law_x11_sockets_are_numbered(name: Seq<char>, n: u32)
    ensures
        socket_display("X"@ + decimal(n as nat)) == Some(n),
        socket_display(name) is Some ==> name[0] == 'X' && socket_display(name) == u32_value(
            name.skip(1),
        ),
{
    reveal_strlit("X");
    crate::number::law_decimal_reads_back(n as nat);
    lemma_after_prefix("X"@, decimal(n as nat));
    if socket_display(name) is Some {
        assert(name.subrange(0, 1)[0] == 'X');
    }
}

/// The number of a display stands between the last colon of its name and the
/// next dot, if there is one. A name without a colon has none.
pub proof fn law_display_numbers(host: Seq<char>, n: u32, screen: Seq<char>)
    requires
        !screen.contains(':'),
    ensures
        display_number(host + seq![':'] + decimal(n as nat)) == Some(n),
        display_number(host + seq![':'] + (decimal(n as nat) + seq!['.'] + screen)) == Some(n),
        display_number(screen) is None,
{
    let digits = decimal(n as nat);
    crate::number::law_decimal_reads_back(n as nat);
    assert forall|c: char| c == ':' || c == '.' implies !digits.contains(c) by {
        if digits.contains(c) {
            let i = choose|i: int| 0 <= i < digits.len() && digits[i] == c;
            assert(crate::number::is_digit(digits[i]));
        }
    }
    let long = digits + seq!['.'] + screen;
    assert(!long.contains(':')) by {
        if long.contains(':') {
            let i = choose|i: int| 0 <= i < long.len() && long[i] == ':';
            if i < digits.len() {
                assert(digits[i] == ':');
            } else if i > digits.len() {
                assert(screen[i - digits.len() - 1] == ':');
            }
        }
    }
    crate::path::lemma_last_piece(host, digits, ':');
    crate::path::lemma_last_piece(host, long, ':');
    crate::text::law_pieces_make_the_text(host, ':');
    lemma_first_piece(digits, '.', Seq::empty());
    lemma_first_piece(digits, '.', screen);
    lemma_single(screen, ':');
}

/// A text without a separator is its only piece.
proof fn lemma_single(s: Seq<char>, separator: char)
    requires
        !s.contains(separator),
    ensures
        pieces(s, separator) == seq![s],
{
    let texts = seq![s];
    law_texts_are_the_pieces(texts, separator);
    assert(Seq::new(0, |i: int| seq![separator]) =~= Seq::<Seq<char>>::empty());
    assert(interleaved(texts, Seq::new((texts.len() - 1) as nat, |i: int| seq![separator])) == s);
}

/// What stands before the first separator is the first piece.
proof fn lemma_first_piece(first: Seq<char>, separator: char, rest: Seq<char>)
    requires
        !first.contains(separator),
    ensures
        pieces(first, separator).first() == first,
        pieces(first + seq![separator] + rest, separator).first() == first,
        pieces(first + seq![separator] + rest, separator).len() >= 2,
    decreases rest.len(),
{
    lemma_single(first, separator);
    let s = first + seq![separator] + rest;
    if rest.len() == 0 {
        assert(s.drop_last() =~= first);
    } else {
        lemma_first_piece(first, separator, rest.drop_last());
        assert(s.drop_last() =~= first + seq![separator] + rest.drop_last());
    }
}

/// The home directory of a user is the sixth field of the line whose third is
/// the user's number.
pub proof fn law_home_directories_are_the_sixth_field(fields: Seq<Seq<char>>, uid: u32)
    requires
        fields.len() > 0,
        forall|i: int| 0 <= i < fields.len() ==> !(#[trigger] fields[i]).contains(':'),
    ensures
        home_in_line(
            interleaved(fields, Seq::new((fields.len() - 1) as nat, |i: int| seq![':'])),
            uid,
        ) == if fields.len() >= 6 && u32_value(fields[2]) == Some(uid) {
            Some(fields[5])
        } else {
            None
        },
{
    law_texts_are_the_pieces(fields, ':');
}

/// Of several lines for a user the first counts, and lines for others do not.
pub proof fn law_the_first_line_for_a_user_counts(lines: Seq<Seq<char>>, uid: u32, i: int)
    requires
        0 <= i < lines.len(),
        forall|j: int| 0 <= j < i ==> home_in_line(#[trigger] lines[j], uid) is None,
        home_in_line(lines[i], uid) is Some,
    ensures
        home_in_lines(lines, uid) == home_in_line(lines[i], uid),
    decreases i,
{
    if i > 0 {
        let rest = lines.drop_first();
        assert(home_in_line(lines[0], uid) is None);
        assert forall|j: int| 0 <= j < i - 1 implies home_in_line(
            #[trigger] rest[j],
            uid,
        ) is None by {
            assert(home_in_line(lines[j + 1], uid) is None);
        }
        law_the_first_line_for_a_user_counts(rest, uid, i - 1);
    }
}

/// Wayland sessions of one runtime directory come in the order of their
/// displays, others in the order of their directories.
pub proof fn law_sessions_go_by_directory_then_display(
    left: (Seq<char>, Seq<char>),
    right: (Seq<char>, Seq<char>),
)
    ensures
        left.0 == right.0 ==> session_before(left, right) == text_before(left.1, right.1),
        path_before(left.0, right.0) ==> session_before(left, right) && !session_before(right, left),
{
    lemma_parts_asymmetric(path_parts(left.0), path_parts(right.0));
    lemma_parts_asymmetric(path_parts(left.0), path_parts(left.0));
}

/// The display to use has the lowest number of all, and its socket is the first
/// with that number.
pub proof fn law_the_lowest_display_is_used(sockets: Seq<X11Socket>, i: int, j: int)
    requires
        is_lowest_display(sockets, i),
        0 <= j < sockets.len(),
        socket_display(sockets[j].name@) is Some,
    ensures
        socket_display(sockets[i].name@) is Some,
        socket_display(sockets[i].name@)->0 <= socket_display(sockets[j].name@)->0,
        socket_display(sockets[i].name@) == socket_display(sockets[j].name@) ==> i <= j,
{
    assert(sockets[j] == sockets[j]);
}

/// The session to use is a Wayland socket that no other comes before.
pub proof fn law_the_first_session_is_used(files: Seq<RuntimeFile>, i: int, j: int)
    requires
        is_first_socket(files, i),
        0 <= j < files.len(),
        files[j].is_socket,
        names_wayland_socket(files[j].name@),
    ensures
        files[i].is_socket,
        names_wayland_socket(files[i].name@),
        !session_before(
            (files[j].runtime_dir@, files[j].name@),
            (files[i].runtime_dir@, files[i].name@),
        ),
{
    assert(is_wayland_socket(files[j]));
}

/// A session is known by its runtime directory and display, and so is the file
/// that leads to it.
pub proof fn law_sessions_are_known_by_their_files(
    runtime_dir: String,
    display: String,
    file: RuntimeFile,
)
    ensures
        wayland_key(DisplaySession::Wayland { runtime_dir, display }) == (runtime_dir@, display@),
        file_key(file) == (file.runtime_dir@, file.name@),
        is_wayland_socket(file) <==> file.is_socket && names_wayland_socket(file.name@),
{
}

/// Wayland is preferred, in the environment and among what is found. Nothing is
/// looked for where the environment leads to a display.
pub proof fn law_wayland_is_preferred(
    wayland: Option<DisplaySession>,
    x11: Option<DisplaySession>,
    has_x11: bool,
)
    ensures
        display_plan(true, has_x11) == DisplayPlan::KeepWayland,
        display_plan(false, true) == DisplayPlan::KeepX11,
        display_plan(false, false) == DisplayPlan::Discover,
        wayland is Some ==> preferred_session(wayland, x11) == wayland,
        wayland is None ==> preferred_session(wayland, x11) == x11,
{
}

/// The display manager's authority file is preferred to the one in the home
/// directory, and only files that are there are used.
pub proof fn law_authority_files_are_there(gdm: String, home: Option<String>)
    ensures
        preferred_authority(gdm, true, home, true) == Some(gdm),
        preferred_authority(gdm, true, home, false) == Some(gdm),
        preferred_authority(gdm, false, home, true) == home,
        preferred_authority(gdm, false, home, false) is None,
{
}

/// Where the socket of a display and the authority files of a user are.
pub proof fn law_where_sockets_and_authority_files_are(n: u32, home: Seq<char>)
    ensures
        x11_socket(n) == "/tmp/.X11-unix"@ + seq!['/', 'X'] + decimal(n as nat),
        gdm_authority(n) == "/run/user"@ + seq!['/'] + decimal(n as nat) + seq!['/']
            + "gdm/Xauthority"@,
        home.len() > 0 && home.last() != '/' ==> home_authority(home) == home + seq!['/']
            + ".Xauthority"@,
{
    reveal_strlit("/tmp/.X11-unix");
    reveal_strlit("X");
    reveal_strlit("/run/user");
    reveal_strlit("gdm/Xauthority");
    reveal_strlit(".Xauthority");
    crate::number::law_decimal_reads_back(n as nat);
    let digits = decimal(n as nat);
    assert(crate::number::is_digit(digits[0]));
    assert(crate::number::is_digit(digits[digits.len() - 1]));
    assert(x11_socket(n) =~= "/tmp/.X11-unix"@ + seq!['/', 'X'] + digits);
    assert(joined("/run/user"@, digits, '/') =~= "/run/user"@ + seq!['/'] + digits);
    assert(gdm_authority(n) =~= "/run/user"@ + seq!['/'] + digits + seq!['/']
        + "gdm/Xauthority"@);
    if home.len() > 0 && home.last() != '/' {
        assert(home_authority(home) =~= home + seq!['/'] + ".Xauthority"@);
    }
}

} // verus!
