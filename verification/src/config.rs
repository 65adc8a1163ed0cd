//! The configuration file: settings and triggers.
use crate::error::{BaanError, Result};
use crate::number::{
    decimal, digits_value, law_decimal_reads_back, law_signs, signed_decimal, signed_decimal_text,
};
use crate::path::{join_bytes, joined};
use crate::process::Timeout;
use crate::text::{folded, same_text, texts_view, trim, trimmed};
use crate::triggers::{case_distinct, has_name, TriggerCommands};
use vstd::prelude::*;
use vstd::string::*;
use vstd::utf8::encode_utf8;

verus! {

/// The name of the configuration file.
pub const CONFIG_FILE_NAME: &'static str = "baan.toml";

/// The reserved TOML table that holds runtime settings.
///
/// Reserved: a trigger cannot be named `baan` at the root level, since that
/// key is always interpreted as the settings table.
pub const SETTINGS_TABLE: &'static str = "baan";

/// The TOML table that holds trigger definitions.
///
/// Reserved: a trigger cannot be named `triggers` at the root level, since
/// that key is always interpreted as the triggers table.
pub const TRIGGERS_TABLE: &'static str = "triggers";

/// Runtime settings parsed from the `[baan]` section of the config file.
#[derive(Debug, Clone, Copy, PartialEq, Eq, Structural)]
pub struct Settings {
    /// Delay before injecting replacement output (milliseconds).
    pub flush_delay_ms: u64,
    /// Delay before reading clipboard after Ctrl+C (milliseconds).
    pub clipboard_read_delay_ms: u64,
    /// Delay between writing to the clipboard and pasting, and before
    /// restoring the old clipboard value (milliseconds).
    pub clipboard_write_delay_ms: u64,
    /// Maximum time a trigger command may run before it is killed.
    pub command_timeout: Timeout,
}

/// The settings of an empty configuration.
pub open spec fn default_settings() -> Settings {
    Settings {
        flush_delay_ms: 100,
        clipboard_read_delay_ms: 120,
        clipboard_write_delay_ms: 80,
        command_timeout: Timeout { secs: 15, nanos: 0 },
    }
}

impl Default for Settings {
    fn default() -> (settings: Settings)
        ensures
            settings == default_settings(),
    {
        Settings {
            flush_delay_ms: 100,
            clipboard_read_delay_ms: 120,
            clipboard_write_delay_ms: 80,
            command_timeout: Timeout { secs: 15, nanos: 0 },
        }
    }
}

// ---------------------------------------------------------------------------
// Values
// ---------------------------------------------------------------------------

/// A single value. A float and a datetime are held as their plain text.
#[derive(Debug)]
pub enum Scalar {
    Text(String),
    Integer(i64),
    Float(String),
    Boolean(bool),
    Datetime(String),
}

/// What a [`Scalar`] holds.
#[verifier::ext_equal]
pub enum ScalarView {
    Text(Seq<char>),
    Integer(i64),
    Float(Seq<char>),
    Boolean(bool),
    Datetime(Seq<char>),
}

impl View for Scalar {
    type V = ScalarView;

    open spec fn view(&self) -> ScalarView {
        match self {
            Scalar::Text(text) => ScalarView::Text(text@),
            Scalar::Integer(i) => ScalarView::Integer(*i),
            Scalar::Float(text) => ScalarView::Float(text@),
            Scalar::Boolean(b) => ScalarView::Boolean(*b),
            Scalar::Datetime(text) => ScalarView::Datetime(text@),
        }
    }
}

/// A value of the configuration, with what `T` keeps of a table. The items of
/// an array are single values, or `None` for nested arrays and tables.
#[derive(Debug)]
pub enum ConfigValue<T> {
    Scalar(Scalar),
    Array(Vec<Option<Scalar>>),
    Table(T),
}

/// A value inside a table: nested tables are not looked into.
pub type Member = ConfigValue<()>;

/// A value at the root: a table with its members.
pub type RootValue = ConfigValue<Vec<(String, Member)>>;

/// What a [`ConfigValue`] holds.
#[verifier::ext_equal]
pub enum ValueView<T> {
    Scalar(ScalarView),
    Array(Seq<Option<ScalarView>>),
    Table(T),
}

/// What a [`Member`] holds.
pub type MemberView = ValueView<()>;

/// What a [`RootValue`] holds.
pub type RootView = ValueView<Seq<(Seq<char>, MemberView)>>;

/// What an array item holds.
pub open spec fn item_view(item: Option<Scalar>) -> Option<ScalarView> {
    match item {
        Some(scalar) => Some(scalar@),
        None => None,
    }
}

/// What the items of an array hold.
pub open spec fn items_view(items: Seq<Option<Scalar>>) -> Seq<Option<ScalarView>> {
    items.map_values(|item: Option<Scalar>| item_view(item))
}

/// What a value holds, apart from what is inside a table.
pub open spec fn member_view<T>(value: ConfigValue<T>) -> MemberView {
    match value {
        ConfigValue::Scalar(scalar) => ValueView::Scalar(scalar@),
        ConfigValue::Array(items) => ValueView::Array(items_view(items@)),
        ConfigValue::Table(_) => ValueView::Table(()),
    }
}

/// What the members of a table hold, with their keys.
pub open spec fn members_view(members: Seq<(String, Member)>) -> Seq<(Seq<char>, MemberView)> {
    members.map_values(|member: (String, Member)| (member.0@, member_view(member.1)))
}

/// What a value at the root holds.
pub open spec fn root_view(value: RootValue) -> RootView {
    match value {
        ConfigValue::Scalar(scalar) => ValueView::Scalar(scalar@),
        ConfigValue::Array(items) => ValueView::Array(items_view(items@)),
        ConfigValue::Table(members) => ValueView::Table(members_view(members@)),
    }
}

/// What a value at the root holds, apart from what is inside a table.
pub open spec fn without_members(value: RootView) -> MemberView {
    match value {
        ValueView::Scalar(scalar) => ValueView::Scalar(scalar),
        ValueView::Array(items) => ValueView::Array(items),
        ValueView::Table(_) => ValueView::Table(()),
    }
}

/// What a whole document holds.
pub open spec fn document_view(entries: Seq<(String, RootValue)>) -> Seq<(Seq<char>, RootView)> {
    entries.map_values(|entry: (String, RootValue)| (entry.0@, root_view(entry.1)))
}

// ---------------------------------------------------------------------------
// Triggers
// ---------------------------------------------------------------------------

/// A single value as a command-line argument.
pub open spec fn scalar_text(scalar: ScalarView) -> Seq<char> {
    match scalar {
        ScalarView::Text(text) => text,
        ScalarView::Integer(i) => signed_decimal(i as int),
        ScalarView::Float(text) => text,
        ScalarView::Boolean(b) => if b {
            "true"@
        } else {
            "false"@
        },
        ScalarView::Datetime(text) => text,
    }
}

/// The arguments that a value stands for; `None` where an argument would be
/// an array or table.
pub open spec fn command_of(value: MemberView) -> Option<Seq<Seq<char>>> {
    match value {
        ValueView::Scalar(scalar) => Some(seq![scalar_text(scalar)]),
        ValueView::Array(items) => if forall|i: int|
            0 <= i < items.len() ==> (#[trigger] items[i]) is Some {
            Some(items.map_values(|item: Option<ScalarView>| scalar_text(item->0)))
        } else {
            None
        },
        ValueView::Table(_) => None,
    }
}

/// The complaint about an argument that is an array or table.
pub open spec fn nested_complaint(trigger: Seq<char>) -> Seq<char> {
    "trigger '"@ + trigger
        + "' has a command argument that is an array or table; only strings, numbers, booleans, and datetimes are allowed"@
}

/// The triggers with one more, or the complaint about it.
pub open spec fn with_trigger(
    triggers: Map<Seq<char>, Seq<Seq<char>>>,
    key: Seq<char>,
    value: MemberView,
) -> std::result::Result<Map<Seq<char>, Seq<Seq<char>>>, Seq<char>> {
    let name = trimmed(key);
    if name.len() == 0 {
        Err("Empty trigger key is not allowed"@)
    } else {
        match command_of(value) {
            None => Err(nested_complaint(name)),
            Some(command) => if has_name(triggers, name) {
                Err("Duplicate trigger '"@ + name + "'"@)
            } else {
                Ok(triggers.insert(name, command))
            },
        }
    }
}

/// The triggers with those of a table, or the first complaint.
pub open spec fn with_triggers(
    triggers: Map<Seq<char>, Seq<Seq<char>>>,
    members: Seq<(Seq<char>, MemberView)>,
) -> std::result::Result<Map<Seq<char>, Seq<Seq<char>>>, Seq<char>>
    decreases members.len(),
{
    if members.len() == 0 {
        Ok(triggers)
    } else {
        match with_triggers(triggers, members.drop_last()) {
            Ok(before) => with_trigger(before, members.last().0, members.last().1),
            Err(complaint) => Err(complaint),
        }
    }
}

/// A first complaint is the last.
proof fn lemma_triggers_refused(
    triggers: Map<Seq<char>, Seq<Seq<char>>>,
    members: Seq<(Seq<char>, MemberView)>,
    n: int,
)
    requires
        0 <= n <= members.len(),
        with_triggers(triggers, members.take(n)) is Err,
    ensures
        with_triggers(triggers, members) == with_triggers(triggers, members.take(n)),
    decreases members.len() - n,
{
    if n < members.len() {
        assert(members.take(n + 1).drop_last() =~= members.take(n));
        lemma_triggers_refused(triggers, members, n + 1);
    } else {
        assert(members.take(n) =~= members);
    }
}

/// The error for something in the configuration that no line is known of.
fn refuse(detail: String) -> (error: BaanError)
    ensures
        error == (BaanError::ParseConfigFile { line: 0, detail }),
{
    BaanError::ParseConfigFile { line: 0, detail }
}

/// Whether the error is this complaint about the configuration.
pub open spec fn is_complaint(error: BaanError, complaint: Seq<char>) -> bool {
    error matches BaanError::ParseConfigFile { line, detail } && line == 0 && detail@ == complaint
}

/// Converts a single value into a command-line argument string.
///
/// Scalars (strings, integers, floats, booleans, datetimes) are converted
/// to their plain text representation. Arrays and tables are rejected with
/// an explicit error rather than being silently stringified into a single
/// argument containing raw TOML syntax (e.g. `["a", "b"]`), which is almost
/// never what's intended.
fn value_to_arg(trigger: &str, value: Option<&Scalar>) -> (arg: Result<String>)
    ensures
        match value {
            Some(scalar) => arg matches Ok(text) && text@ == scalar_text(scalar@),
            None => arg matches Err(error) && is_complaint(error, nested_complaint(trigger@)),
        },
{
    match value {
        Some(scalar) => Ok(
            match scalar {
                Scalar::Text(text) => text.clone(),
                Scalar::Integer(i) => signed_decimal_text(*i),
                Scalar::Float(text) => text.clone(),
                Scalar::Boolean(b) => if *b {
                    "true".to_owned()
                } else {
                    "false".to_owned()
                },
                Scalar::Datetime(text) => text.clone(),
            },
        ),
        None => {
            let mut detail = "trigger '".to_owned();
            detail.append(trigger);
            detail.append(
                "' has a command argument that is an array or table; only strings, numbers, booleans, and datetimes are allowed",
            );
            Err(refuse(detail))
        },
    }
}

/// Converts the items of an array into command-line arguments.
fn array_to_args(trigger: &str, items: &[Option<Scalar>]) -> (args: Result<Vec<String>>)
    ensures
        match command_of(ValueView::Array(items_view(items@))) {
            Some(command) => args matches Ok(args) && texts_view(args@) == command,
            None => args matches Err(error) && is_complaint(error, nested_complaint(trigger@)),
        },
{
    let mut args: Vec<String> = Vec::new();
    let mut i: usize = 0;
    let ghost views = items_view(items@);
    while i < items.len()
        invariant
            i <= items@.len(),
            views == items_view(items@),
            args@.len() == i,
            forall|j: int| 0 <= j < i ==> (#[trigger] views[j]) is Some,
            forall|j: int| 0 <= j < i ==> #[trigger] args@[j]@ == scalar_text(views[j]->0),
        decreases items@.len() - i,
    {
        assert(views[i as int] == item_view(items@[i as int]));
        match value_to_arg(trigger, items[i].as_ref()) {
            Ok(arg) => args.push(arg),
            Err(error) => {
                return Err(error);
            },
        }
        i += 1;
    }
    assert(texts_view(args@) =~= views.map_values(
        |item: Option<ScalarView>| scalar_text(item->0),
    ));
    Ok(args)
}

/// Adds a trigger with its command to the triggers.
fn add_trigger(name: &str, command: Vec<String>, triggers: &mut TriggerCommands) -> (result: Result<
    (),
>)
    ensures
        if has_name(old(triggers)@, name@) {
            &&& result matches Err(error)
            &&& is_complaint(error, "Duplicate trigger '"@ + name@ + "'"@)
            &&& final(triggers)@ == old(triggers)@
        } else {
            &&& result is Ok
            &&& final(triggers)@ == old(triggers)@.insert(name@, texts_view(command@))
        },
{
    if triggers.insert(name.to_owned(), command) {
        Ok(())
    } else {
        let mut detail = "Duplicate trigger '".to_owned();
        detail.append(name);
        detail.append("'");
        Err(refuse(detail))
    }
}

/// Parse a single trigger definition (key → command array).
///
/// Also handles the legacy root-level keys for backward compatibility.
fn parse_trigger<T>(key: &str, value: &ConfigValue<T>, triggers: &mut TriggerCommands) -> (result:
    Result<()>)
    ensures
        match with_trigger(old(triggers)@, key@, member_view(*value)) {
            Ok(all) => result is Ok && final(triggers)@ == all,
            Err(complaint) => {
                &&& result matches Err(error)
                &&& is_complaint(error, complaint)
                &&& final(triggers)@ == old(triggers)@
            },
        },
{
    let name = trim(key);
    if name.is_empty() {
        return Err(refuse("Empty trigger key is not allowed".to_owned()));
    }
    let command = match value {
        ConfigValue::Scalar(scalar) => match value_to_arg(name, Some(scalar)) {
            Ok(arg) => {
                let mut args: Vec<String> = Vec::new();
                args.push(arg);
                assert(texts_view(args@) =~= seq![scalar_text(scalar@)]);
                Ok(args)
            },
            Err(error) => Err(error),
        },
        ConfigValue::Array(items) => array_to_args(name, items.as_slice()),
        ConfigValue::Table(_) => match value_to_arg(name, None) {
            Ok(_) => Ok(Vec::new()),
            Err(error) => Err(error),
        },
    };
    match command {
        Ok(command) => add_trigger(name, command, triggers),
        Err(error) => Err(error),
    }
}

/// Parse the contents of the `[triggers]` table.
fn parse_triggers(members: &[(String, Member)], triggers: &mut TriggerCommands) -> (result: Result<
    (),
>)
    ensures
        match with_triggers(old(triggers)@, members_view(members@)) {
            Ok(all) => result is Ok && final(triggers)@ == all,
            Err(complaint) => result matches Err(error) && is_complaint(error, complaint),
        },
{
    let ghost start = triggers@;
    let ghost views = members_view(members@);
    let mut i: usize = 0;
    assert(views.take(0) =~= Seq::empty());
    while i < members.len()
        invariant
            i <= members@.len(),
            start == old(triggers)@,
            views == members_view(members@),
            with_triggers(start, views.take(i as int)) == Ok::<
                Map<Seq<char>, Seq<Seq<char>>>,
                Seq<char>,
            >(triggers@),
        decreases members@.len() - i,
    {
        let (key, value) = &members[i];
        proof {
            assert(views.take(i + 1).drop_last() =~= views.take(i as int));
            assert(views[i as int] == (key@, member_view(*value)));
        }
        match parse_trigger(key.as_str(), value, triggers) {
            Ok(()) => {},
            Err(error) => {
                proof {
                    lemma_triggers_refused(start, views, i + 1);
                }
                return Err(error);
            },
        }
        i += 1;
    }
    assert(views.take(i as int) =~= views);
    Ok(())
}

// ---------------------------------------------------------------------------
// Settings
// ---------------------------------------------------------------------------

/// The member of a table with this key.
pub open spec fn member_of(members: Seq<(Seq<char>, MemberView)>, key: Seq<char>) -> Option<
    MemberView,
>
    decreases members.len(),
{
    if members.len() == 0 {
        None
    } else if members.first().0 == key {
        Some(members.first().1)
    } else {
        member_of(members.skip(1), key)
    }
}

/// A setting in milliseconds: its value, its default, or the complaint about
/// it.
pub open spec fn delay_setting(
    members: Seq<(Seq<char>, MemberView)>,
    key: Seq<char>,
    default: u64,
) -> std::result::Result<u64, Seq<char>> {
    match member_of(members, key) {
        None => Ok(default),
        Some(ValueView::Scalar(ScalarView::Integer(i))) => if i >= 0 {
            Ok(i as u64)
        } else {
            Err(key + " must be a non-negative integer"@)
        },
        Some(_) => Err(key + " must be an integer"@),
    }
}

/// The timeout: its value, its default, or the complaint about it.
pub open spec fn timeout_setting(
    members: Seq<(Seq<char>, MemberView)>,
    default: Timeout,
) -> std::result::Result<Timeout, Seq<char>> {
    match member_of(members, "command_timeout_secs"@) {
        None => Ok(default),
        Some(value) => match value {
            ValueView::Scalar(ScalarView::Integer(i)) if i > 0 => Ok(
                Timeout { secs: i as u64, nanos: 0 },
            ),
            _ => Err("command_timeout_secs must be a positive integer"@),
        },
    }
}

/// The settings with those of the `[baan]` table, or the first complaint.
/// Unknown keys are ignored.
pub open spec fn with_settings(
    settings: Settings,
    members: Seq<(Seq<char>, MemberView)>,
) -> std::result::Result<Settings, Seq<char>> {
    let flush = delay_setting(members, "flush_delay_ms"@, settings.flush_delay_ms);
    let read = delay_setting(
        members,
        "clipboard_read_delay_ms"@,
        settings.clipboard_read_delay_ms,
    );
    let write = delay_setting(
        members,
        "clipboard_write_delay_ms"@,
        settings.clipboard_write_delay_ms,
    );
    let timeout = timeout_setting(members, settings.command_timeout);
    if flush is Err {
        Err(flush->Err_0)
    } else if read is Err {
        Err(read->Err_0)
    } else if write is Err {
        Err(write->Err_0)
    } else if timeout is Err {
        Err(timeout->Err_0)
    } else {
        Ok(
            Settings {
                flush_delay_ms: flush->Ok_0,
                clipboard_read_delay_ms: read->Ok_0,
                clipboard_write_delay_ms: write->Ok_0,
                command_timeout: timeout->Ok_0,
            },
        )
    }
}

/// The member of a table with this key.
fn find_member<'a>(members: &'a [(String, Member)], key: &str) -> (found: Option<&'a Member>)
    ensures
        match found {
            Some(value) => member_of(members_view(members@), key@) == Some(member_view(*value)),
            None => member_of(members_view(members@), key@) is None,
        },
{
    let ghost views = members_view(members@);
    let mut i: usize = 0;
    assert(views.skip(0) =~= views);
    while i < members.len()
        invariant
            i <= members@.len(),
            views == members_view(members@),
            member_of(views, key@) == member_of(views.skip(i as int), key@),
        decreases members@.len() - i,
    {
        let (name, value) = &members[i];
        proof {
            assert(views.skip(i as int).skip(1) =~= views.skip(i + 1));
            assert(views[i as int] == (name@, member_view(*value)));
        }
        if same_text(name.as_str(), key) {
            return Some(value);
        }
        i += 1;
    }
    None
}

/// A setting that has to be zero or more.
fn parse_positive_u64(value: &Member, name: &str) -> (result: Result<u64>)
    ensures
        match member_view(*value) {
            ValueView::Scalar(ScalarView::Integer(i)) => if i >= 0 {
                result == Ok::<u64, BaanError>(i as u64)
            } else {
                result matches Err(error) && is_complaint(
                    error,
                    name@ + " must be a non-negative integer"@,
                )
            },
            _ => result matches Err(error) && is_complaint(error, name@ + " must be an integer"@),
        },
{
    match value {
        ConfigValue::Scalar(Scalar::Integer(i)) => if *i >= 0 {
            Ok(*i as u64)
        } else {
            let mut detail = name.to_owned();
            detail.append(" must be a non-negative integer");
            Err(refuse(detail))
        },
        _ => {
            let mut detail = name.to_owned();
            detail.append(" must be an integer");
            Err(refuse(detail))
        },
    }
}

/// A setting in milliseconds.
fn parse_delay(members: &[(String, Member)], key: &str, default: u64) -> (result: Result<u64>)
    ensures
        match delay_setting(members_view(members@), key@, default) {
            Ok(delay) => result == Ok::<u64, BaanError>(delay),
            Err(complaint) => result matches Err(error) && is_complaint(error, complaint),
        },
{
    match find_member(members, key) {
        Some(value) => parse_positive_u64(value, key),
        None => Ok(default),
    }
}

/// The timeout.
fn parse_timeout(members: &[(String, Member)], default: Timeout) -> (result: Result<Timeout>)
    ensures
        match timeout_setting(members_view(members@), default) {
            Ok(timeout) => result == Ok::<Timeout, BaanError>(timeout),
            Err(complaint) => result matches Err(error) && is_complaint(error, complaint),
        },
{
    match find_member(members, "command_timeout_secs") {
        None => Ok(default),
        Some(value) => match value {
            ConfigValue::Scalar(Scalar::Integer(i)) if *i > 0 => Ok(Timeout::from_secs(*i as u64)),
            _ => Err(refuse("command_timeout_secs must be a positive integer".to_owned())),
        },
    }
}

/// Parse the contents of the `[baan]` table.
fn parse_settings(members: &[(String, Member)], settings: Settings) -> (result: Result<Settings>)
    ensures
        match with_settings(settings, members_view(members@)) {
            Ok(settings) => result == Ok::<Settings, BaanError>(settings),
            Err(complaint) => result matches Err(error) && is_complaint(error, complaint),
        },
{
    let flush_delay_ms: u64 = match parse_delay(
        members,
        "flush_delay_ms",
        settings.flush_delay_ms,
    ) {
        Ok(delay) => delay,
        Err(error) => {
            return Err(error);
        },
    };
    let clipboard_read_delay_ms: u64 = match parse_delay(
        members,
        "clipboard_read_delay_ms",
        settings.clipboard_read_delay_ms,
    ) {
        Ok(delay) => delay,
        Err(error) => {
            return Err(error);
        },
    };
    let clipboard_write_delay_ms: u64 = match parse_delay(
        members,
        "clipboard_write_delay_ms",
        settings.clipboard_write_delay_ms,
    ) {
        Ok(delay) => delay,
        Err(error) => {
            return Err(error);
        },
    };
    match parse_timeout(members, settings.command_timeout) {
        Ok(command_timeout) => Ok(
            Settings {
                flush_delay_ms,
                clipboard_read_delay_ms,
                clipboard_write_delay_ms,
                command_timeout,
            },
        ),
        Err(error) => Err(error),
    }
}

/// The keys of the `[baan]` table that mean something.
pub open spec fn is_setting(key: Seq<char>) -> bool {
    ||| key == "flush_delay_ms"@
    ||| key == "clipboard_read_delay_ms"@
    ||| key == "clipboard_write_delay_ms"@
    ||| key == "command_timeout_secs"@
}

/// The keys of a `[baan]` table that mean nothing, in their order.
pub open spec fn unknown_keys(members: Seq<(Seq<char>, MemberView)>) -> Seq<Seq<char>>
    decreases members.len(),
{
    if members.len() == 0 {
        Seq::empty()
    } else {
        let before = unknown_keys(members.drop_last());
        if is_setting(members.last().0) {
            before
        } else {
            before.push(members.last().0)
        }
    }
}

/// Whether a key of the `[baan]` table means something.
fn names_setting(key: &str) -> (known: bool)
    ensures
        known == is_setting(key@),
{
    same_text(key, "flush_delay_ms") || same_text(key, "clipboard_read_delay_ms") || same_text(
        key,
        "clipboard_write_delay_ms",
    ) || same_text(key, "command_timeout_secs")
}

/// The keys of a `[baan]` table that mean nothing, in their order.
fn find_unknown_keys(members: &[(String, Member)]) -> (keys: Vec<String>)
    ensures
        texts_view(keys@) == unknown_keys(members_view(members@)),
{
    let ghost views = members_view(members@);
    let mut keys: Vec<String> = Vec::new();
    let mut i: usize = 0;
    assert(texts_view(keys@) =~= unknown_keys(views.take(0)));
    while i < members.len()
        invariant
            i <= members@.len(),
            views == members_view(members@),
            texts_view(keys@) == unknown_keys(views.take(i as int)),
        decreases members@.len() - i,
    {
        let (name, _) = &members[i];
        let ghost before = texts_view(keys@);
        proof {
            assert(views.take(i + 1).drop_last() =~= views.take(i as int));
            assert(views[i as int].0 == name@);
        }
        if !names_setting(name.as_str()) {
            keys.push(name.clone());
            assert(texts_view(keys@) =~= before.push(name@));
        }
        i += 1;
    }
    assert(views.take(i as int) =~= views);
    keys
}

// ---------------------------------------------------------------------------
// Documents
// ---------------------------------------------------------------------------

/// What a configuration comes to.
#[verifier::ext_equal]
pub struct ConfigView {
    pub settings: Settings,
    pub triggers: Map<Seq<char>, Seq<Seq<char>>>,
}

/// An empty configuration.
pub open spec fn empty_config() -> ConfigView {
    ConfigView { settings: default_settings(), triggers: Map::empty() }
}

/// The configuration with one more entry of the root table, or the complaint
/// about it.
pub open spec fn with_entry(config: ConfigView, key: Seq<char>, value: RootView) -> std::result::Result<
    ConfigView,
    Seq<char>,
> {
    if key == SETTINGS_TABLE@ {
        match value {
            ValueView::Table(members) => match with_settings(config.settings, members) {
                Ok(settings) => Ok(ConfigView { settings, triggers: config.triggers }),
                Err(complaint) => Err(complaint),
            },
            _ => Err("[baan] must be a table"@),
        }
    } else if key == TRIGGERS_TABLE@ {
        match value {
            ValueView::Table(members) => match with_triggers(config.triggers, members) {
                Ok(triggers) => Ok(ConfigView { settings: config.settings, triggers }),
                Err(complaint) => Err(complaint),
            },
            _ => Err("[triggers] must be a table"@),
        }
    } else {
        match with_trigger(config.triggers, key, without_members(value)) {
            Ok(triggers) => Ok(ConfigView { settings: config.settings, triggers }),
            Err(complaint) => Err(complaint),
        }
    }
}

/// What the entries of the root table come to, or the first complaint.
pub open spec fn configured(entries: Seq<(Seq<char>, RootView)>) -> std::result::Result<
    ConfigView,
    Seq<char>,
>
    decreases entries.len(),
{
    if entries.len() == 0 {
        Ok(empty_config())
    } else {
        match configured(entries.drop_last()) {
            Ok(config) => with_entry(config, entries.last().0, entries.last().1),
            Err(complaint) => Err(complaint),
        }
    }
}

/// A first complaint is the last.
proof fn lemma_config_refused(entries: Seq<(Seq<char>, RootView)>, n: int)
    requires
        0 <= n <= entries.len(),
        configured(entries.take(n)) is Err,
    ensures
        configured(entries) == configured(entries.take(n)),
    decreases entries.len() - n,
{
    if n < entries.len() {
        assert(entries.take(n + 1).drop_last() =~= entries.take(n));
        lemma_config_refused(entries, n + 1);
    } else {
        assert(entries.take(n) =~= entries);
    }
}

/// Takes in one entry of the root table.
fn parse_entry(
    key: &str,
    value: &RootValue,
    settings: Settings,
    triggers: &mut TriggerCommands,
) -> (result: Result<Settings>)
    ensures
        match with_entry(
            ConfigView { settings, triggers: old(triggers)@ },
            key@,
            root_view(*value),
        ) {
            Ok(config) => {
                &&& result == Ok::<Settings, BaanError>(config.settings)
                &&& final(triggers)@ == config.triggers
            },
            Err(complaint) => result matches Err(error) && is_complaint(error, complaint),
        },
{
    if same_text(key, SETTINGS_TABLE) {
        match value {
            ConfigValue::Table(members) => parse_settings(members.as_slice(), settings),
            _ => Err(refuse("[baan] must be a table".to_owned())),
        }
    } else if same_text(key, TRIGGERS_TABLE) {
        match value {
            ConfigValue::Table(members) => match parse_triggers(members.as_slice(), triggers) {
                Ok(()) => Ok(settings),
                Err(error) => Err(error),
            },
            _ => Err(refuse("[triggers] must be a table".to_owned())),
        }
    } else {
        match parse_trigger(key, value, triggers) {
            Ok(()) => Ok(settings),
            Err(error) => Err(error),
        }
    }
}

/// Reads settings and triggers out of the entries of the root table.
pub fn config_from_entries(entries: &[(String, RootValue)]) -> (result: Result<
    (Settings, TriggerCommands),
>)
    ensures
        match configured(document_view(entries@)) {
            Ok(config) => {
                &&& result matches Ok((settings, triggers))
                &&& settings == config.settings
                &&& triggers@ == config.triggers
            },
            Err(complaint) => result matches Err(error) && is_complaint(error, complaint),
        },
{
    let mut settings: Settings = Settings::default();
    let mut triggers = TriggerCommands::new();
    let ghost views = document_view(entries@);
    let mut i: usize = 0;
    assert(views.take(0) =~= Seq::empty());
    while i < entries.len()
        invariant
            i <= entries@.len(),
            views == document_view(entries@),
            configured(views.take(i as int)) == Ok::<ConfigView, Seq<char>>(
                ConfigView { settings, triggers: triggers@ },
            ),
        decreases entries@.len() - i,
    {
        let (key, value) = &entries[i];
        proof {
            assert(views.take(i + 1).drop_last() =~= views.take(i as int));
            assert(views[i as int] == (key@, root_view(*value)));
        }
        match parse_entry(key.as_str(), value, settings, &mut triggers) {
            Ok(changed) => {
                settings = changed;
            },
            Err(error) => {
                proof {
                    lemma_config_refused(views, i + 1);
                }
                return Err(error);
            },
        }
        i += 1;
    }
    assert(views.take(i as int) =~= views);
    Ok((settings, triggers))
}

// ---------------------------------------------------------------------------
// TOML
// ---------------------------------------------------------------------------

/// A TOML value as the `toml` crate has it.
#[verifier::external_type_specification]
#[verifier::external_body]
pub struct ExTomlValue(toml::Value);

/// A TOML value, opened: what it holds, with the values inside it still
/// closed.
enum OpenValue {
    Scalar(Scalar),
    Array(Vec<toml::Value>),
    Table(Vec<(String, toml::Value)>),
}

/// What a TOML value holds, with the values inside it still closed. A table
/// holds its entries in the order of their keys.
pub enum TomlView {
    Scalar(ScalarView),
    Array(Seq<toml::Value>),
    Table(Seq<(Seq<char>, toml::Value)>),
}

/// The keys and values of a table.
pub open spec fn closed_entries(entries: Seq<(String, toml::Value)>) -> Seq<
    (Seq<char>, toml::Value),
> {
    entries.map_values(|entry: (String, toml::Value)| (entry.0@, entry.1))
}

impl OpenValue {
    spec fn opened(self) -> TomlView {
        match self {
            OpenValue::Scalar(scalar) => TomlView::Scalar(scalar@),
            OpenValue::Array(values) => TomlView::Array(values@),
            OpenValue::Table(entries) => TomlView::Table(closed_entries(entries@)),
        }
    }
}

/// What a TOML value holds.
pub uninterp spec fn toml_contents(value: toml::Value) -> TomlView;

/// Opens a `toml::Value`: tells its variants apart and hands out what is
/// inside. A float and a datetime are formatted with their `Display`; a table
/// is turned into a list with its `into_iter`, which goes by key order. All of
/// that is a function of the value alone, named `toml_contents`.
#[verifier::external_body]
fn open_value(value: toml::Value) -> (open: OpenValue)
    ensures
        open.opened() == toml_contents(value),
{
    match value {
        toml::Value::String(text) => OpenValue::Scalar(Scalar::Text(text)),
        toml::Value::Integer(i) => OpenValue::Scalar(Scalar::Integer(i)),
        toml::Value::Float(f) => OpenValue::Scalar(Scalar::Float(f.to_string())),
        toml::Value::Boolean(b) => OpenValue::Scalar(Scalar::Boolean(b)),
        toml::Value::Datetime(d) => OpenValue::Scalar(Scalar::Datetime(d.to_string())),
        toml::Value::Array(values) => OpenValue::Array(values),
        toml::Value::Table(table) => OpenValue::Table(table.into_iter().collect()),
    }
}

/// What a document holds, or where it is not TOML (as a byte offset, where
/// that is known) and the parser's words for it.
pub uninterp spec fn toml_document(content: Seq<char>) -> std::result::Result<
    Seq<(Seq<char>, toml::Value)>,
    (Option<int>, Seq<char>),
>;

/// An offset as a plain number.
pub open spec fn offset_view(offset: Option<usize>) -> Option<int> {
    match offset {
        Some(offset) => Some(offset as int),
        None => None,
    }
}

/// Parses a document with `toml::from_str` into a `toml::Table` and turns
/// that into a list with its `into_iter`, which goes by key order. An error is
/// taken apart with `span` and `Display`. All of that is a function of the
/// text alone, named `toml_document`; what the TOML grammar is is not stated.
#[verifier::external_body]
fn parse_document(content: &str) -> (document: std::result::Result<
    Vec<(String, toml::Value)>,
    (Option<usize>, String),
>)
    ensures
        match (document, toml_document(content@)) {
            (Ok(entries), Ok(named)) => closed_entries(entries@) == named,
            (Err((offset, text)), Err(named)) => named == (offset_view(offset), text@),
            _ => false,
        },
{
    match toml::from_str::<toml::Table>(content) {
        Ok(table) => Ok(table.into_iter().collect()),
        Err(error) => Err((error.span().map(|span| span.start), error.to_string())),
    }
}

/// A TOML value as the item of an array.
pub open spec fn toml_item(value: toml::Value) -> Option<ScalarView> {
    match toml_contents(value) {
        TomlView::Scalar(scalar) => Some(scalar),
        _ => None,
    }
}

/// TOML values as the items of an array.
pub open spec fn toml_items(values: Seq<toml::Value>) -> Seq<Option<ScalarView>> {
    values.map_values(|value: toml::Value| toml_item(value))
}

/// A TOML value as a member of a table.
pub open spec fn toml_member(value: toml::Value) -> MemberView {
    match toml_contents(value) {
        TomlView::Scalar(scalar) => ValueView::Scalar(scalar),
        TomlView::Array(values) => ValueView::Array(toml_items(values)),
        TomlView::Table(_) => ValueView::Table(()),
    }
}

/// TOML values as the members of a table.
pub open spec fn toml_members(entries: Seq<(Seq<char>, toml::Value)>) -> Seq<
    (Seq<char>, MemberView),
> {
    entries.map_values(|entry: (Seq<char>, toml::Value)| (entry.0, toml_member(entry.1)))
}

/// A TOML value at the root.
pub open spec fn toml_root(value: toml::Value) -> RootView {
    match toml_contents(value) {
        TomlView::Scalar(scalar) => ValueView::Scalar(scalar),
        TomlView::Array(values) => ValueView::Array(toml_items(values)),
        TomlView::Table(entries) => ValueView::Table(toml_members(entries)),
    }
}

/// The TOML values of a whole document.
pub open spec fn toml_roots(entries: Seq<(Seq<char>, toml::Value)>) -> Seq<(Seq<char>, RootView)> {
    entries.map_values(|entry: (Seq<char>, toml::Value)| (entry.0, toml_root(entry.1)))
}

/// Reads the items of an array.
fn read_items(closed: Vec<toml::Value>) -> (items: Vec<Option<Scalar>>)
    ensures
        items_view(items@) == toml_items(closed@),
{
    let mut rest = closed;
    let mut items: Vec<Option<Scalar>> = Vec::new();
    let ghost all = toml_items(closed@);
    assert(items_view(items@) + toml_items(rest@) =~= all);
    while rest.len() > 0
        invariant
            items_view(items@) + toml_items(rest@) == all,
        decreases rest@.len(),
    {
        let ghost before = items_view(items@);
        let ghost left = rest@;
        let value = rest.remove(0);
        let item = match open_value(value) {
            OpenValue::Scalar(scalar) => Some(scalar),
            _ => None,
        };
        proof {
            assert(item_view(item) == toml_item(value));
            assert(toml_items(left) =~= seq![toml_item(value)] + toml_items(rest@));
        }
        items.push(item);
        proof {
            assert(items_view(items@) =~= before.push(item_view(item)));
            assert(items_view(items@) + toml_items(rest@) =~= before + toml_items(left));
        }
    }
    assert(items_view(items@) =~= all);
    items
}

/// Reads a member of a table.
fn read_member(value: toml::Value) -> (member: Member)
    ensures
        member_view(member) == toml_member(value),
{
    match open_value(value) {
        OpenValue::Scalar(scalar) => ConfigValue::Scalar(scalar),
        OpenValue::Array(values) => ConfigValue::Array(read_items(values)),
        OpenValue::Table(_) => ConfigValue::Table(()),
    }
}

/// Reads the members of a table.
fn read_members(closed: Vec<(String, toml::Value)>) -> (members: Vec<(String, Member)>)
    ensures
        members_view(members@) == toml_members(closed_entries(closed@)),
{
    let mut rest = closed;
    let mut members: Vec<(String, Member)> = Vec::new();
    let ghost all = toml_members(closed_entries(closed@));
    assert(members_view(members@) + toml_members(closed_entries(rest@)) =~= all);
    while rest.len() > 0
        invariant
            members_view(members@) + toml_members(closed_entries(rest@)) == all,
        decreases rest@.len(),
    {
        let ghost before = members_view(members@);
        let ghost left = toml_members(closed_entries(rest@));
        let (key, value) = rest.remove(0);
        let member = read_member(value);
        let ghost view = (key@, member_view(member));
        assert(left =~= seq![view] + toml_members(closed_entries(rest@)));
        members.push((key, member));
        proof {
            assert(members_view(members@) =~= before.push(view));
            assert(members_view(members@) + toml_members(closed_entries(rest@)) =~= before + left);
        }
    }
    assert(members_view(members@) =~= all);
    members
}

/// Reads a value at the root.
fn read_root(value: toml::Value) -> (root: RootValue)
    ensures
        root_view(root) == toml_root(value),
{
    match open_value(value) {
        OpenValue::Scalar(scalar) => ConfigValue::Scalar(scalar),
        OpenValue::Array(values) => ConfigValue::Array(read_items(values)),
        OpenValue::Table(entries) => ConfigValue::Table(read_members(entries)),
    }
}

/// Reads the entries of a document.
fn read_entries(closed: Vec<(String, toml::Value)>) -> (entries: Vec<(String, RootValue)>)
    ensures
        document_view(entries@) == toml_roots(closed_entries(closed@)),
{
    let mut rest = closed;
    let mut entries: Vec<(String, RootValue)> = Vec::new();
    let ghost all = toml_roots(closed_entries(closed@));
    assert(document_view(entries@) + toml_roots(closed_entries(rest@)) =~= all);
    while rest.len() > 0
        invariant
            document_view(entries@) + toml_roots(closed_entries(rest@)) == all,
        decreases rest@.len(),
    {
        let ghost before = document_view(entries@);
        let ghost left = toml_roots(closed_entries(rest@));
        let (key, value) = rest.remove(0);
        let root = read_root(value);
        let ghost view = (key@, root_view(root));
        assert(left =~= seq![view] + toml_roots(closed_entries(rest@)));
        entries.push((key, root));
        proof {
            assert(document_view(entries@) =~= before.push(view));
            assert(document_view(entries@) + toml_roots(closed_entries(rest@)) =~= before + left);
        }
    }
    assert(document_view(entries@) =~= all);
    entries
}

// ---------------------------------------------------------------------------
// Files
// ---------------------------------------------------------------------------

/// How many newlines stand among the first `n` bytes.
pub open spec fn newlines_before(bytes: Seq<u8>, n: int) -> nat
    decreases n,
{
    if n <= 0 {
        0
    } else if n <= bytes.len() && bytes[n - 1] == 0x0a {
        newlines_before(bytes, n - 1) + 1
    } else {
        newlines_before(bytes, n - 1)
    }
}

/// The 1-indexed number of the line that a byte offset is on.
pub open spec fn line_at(content: Seq<char>, byte_offset: int) -> nat {
    newlines_before(encode_utf8(content), byte_offset) + 1
}

/// The line to report for a byte offset, 0 where none is known. (A number that
/// no `usize` holds becomes the largest one.)
pub open spec fn reported_line(content: Seq<char>, byte_offset: Option<int>) -> usize {
    match byte_offset {
        Some(offset) => if line_at(content, offset) <= usize::MAX {
            line_at(content, offset) as usize
        } else {
            usize::MAX
        },
        None => 0,
    }
}

/// Newlines are no more than bytes.
proof fn lemma_newlines(bytes: Seq<u8>, n: int)
    ensures
        n >= 0 ==> newlines_before(bytes, n) <= n,
        n > bytes.len() ==> newlines_before(bytes, n) == newlines_before(bytes, bytes.len() as int),
    decreases n,
{
    if n > 0 {
        lemma_newlines(bytes, n - 1);
    }
}

/// Converts a byte offset into a 1-indexed line number by counting
/// newlines before it. An offset past the end counts as the end.
pub fn line_number_at(content: &str, byte_offset: usize) -> (line: usize)
    ensures
        line == reported_line(content@, Some(byte_offset as int)),
{
    let bytes = content.as_bytes();
    let end: usize = if byte_offset < bytes.len() {
        byte_offset
    } else {
        bytes.len()
    };
    let mut count: usize = 0;
    let mut i: usize = 0;
    while i < end
        invariant
            i <= end <= bytes@.len(),
            count == newlines_before(bytes@, i as int),
            count <= i,
        decreases end - i,
    {
        if bytes[i] == 0x0a {
            count += 1;
        }
        i += 1;
    }
    proof {
        lemma_newlines(bytes@, byte_offset as int);
    }
    if count < usize::MAX {
        count + 1
    } else {
        count
    }
}

/// The error for a document that is not TOML: the line where that shows, 0
/// where it is not known, and the parser's words.
pub fn parse_error(content: &str, offset: Option<usize>, text: &str) -> (error: BaanError)
    ensures
        error matches BaanError::ParseConfigFile { line, detail } && detail@
            == "TOML parse error: "@ + text@ && line == reported_line(
            content@,
            offset_view(offset),
        ),
{
    let line: usize = match offset {
        Some(offset) => line_number_at(content, offset),
        None => 0,
    };
    let mut detail = "TOML parse error: ".to_owned();
    detail.append(text);
    BaanError::ParseConfigFile { line, detail }
}

/// Whether `result` is what the text of a configuration file comes to.
pub open spec fn is_config_of(
    result: Result<(Settings, TriggerCommands)>,
    content: Seq<char>,
) -> bool {
    match toml_document(content) {
        Ok(entries) => match configured(toml_roots(entries)) {
            Ok(config) => {
                &&& result matches Ok((settings, triggers))
                &&& settings == config.settings
                &&& triggers@ == config.triggers
            },
            Err(complaint) => result matches Err(error) && is_complaint(error, complaint),
        },
        Err((offset, text)) => {
            &&& result matches Err(BaanError::ParseConfigFile { line, detail })
            &&& detail@ == "TOML parse error: "@ + text
            &&& line == reported_line(content, offset)
        },
    }
}

/// Reads settings and triggers out of the text of a configuration file.
pub fn parse_config_file(content: &str) -> (result: Result<(Settings, TriggerCommands)>)
    ensures
        is_config_of(result, content@),
{
    match parse_document(content) {
        Ok(closed) => config_from_entries(read_entries(closed).as_slice()),
        Err((offset, text)) => Err(parse_error(content, offset, text.as_str())),
    }
}

/// The members of the `[baan]` table; none where there is no such table.
pub open spec fn settings_members(entries: Seq<(Seq<char>, RootView)>) -> Seq<
    (Seq<char>, MemberView),
>
    decreases entries.len(),
{
    if entries.len() == 0 {
        Seq::empty()
    } else if entries.first().0 == SETTINGS_TABLE@ {
        match entries.first().1 {
            ValueView::Table(members) => members,
            _ => Seq::empty(),
        }
    } else {
        settings_members(entries.skip(1))
    }
}

/// The keys of the `[baan]` table among these entries that are ignored because
/// they mean nothing, in their order.
pub fn unknown_settings_in(entries: &[(String, RootValue)]) -> (keys: Vec<String>)
    ensures
        texts_view(keys@) == unknown_keys(settings_members(document_view(entries@))),
{
    let ghost views = document_view(entries@);
    let mut i: usize = 0;
    assert(views.skip(0) =~= views);
    while i < entries.len()
        invariant
            i <= entries@.len(),
            views == document_view(entries@),
            settings_members(views) == settings_members(views.skip(i as int)),
        decreases entries@.len() - i,
    {
        let (key, value) = &entries[i];
        proof {
            assert(views.skip(i as int).skip(1) =~= views.skip(i + 1));
            assert(views[i as int] == (key@, root_view(*value)));
        }
        if same_text(key.as_str(), SETTINGS_TABLE) {
            return match value {
                ConfigValue::Table(members) => find_unknown_keys(members.as_slice()),
                _ => no_keys(),
            };
        }
        i += 1;
    }
    no_keys()
}

/// An empty list of keys.
fn no_keys() -> (keys: Vec<String>)
    ensures
        texts_view(keys@) == Seq::<Seq<char>>::empty(),
{
    let keys: Vec<String> = Vec::new();
    assert(texts_view(keys@) =~= Seq::empty());
    keys
}

/// The keys of a configuration file's `[baan]` table that are ignored because
/// they mean nothing, in their order; none where the text is not TOML.
pub fn unknown_settings(content: &str) -> (keys: Vec<String>)
    ensures
        texts_view(keys@) == match toml_document(content@) {
            Ok(entries) => unknown_keys(settings_members(toml_roots(entries))),
            Err(_) => Seq::empty(),
        },
{
    match parse_document(content) {
        Ok(closed) => unknown_settings_in(read_entries(closed).as_slice()),
        Err(_) => no_keys(),
    }
}

/// The text of the file at `config_path`, given what came of reading it.
pub fn read_config_file(
    config_path: &str,
    content: std::result::Result<String, std::io::Error>,
) -> (result: Result<String>)
    ensures
        match content {
            Ok(content) => result == Ok::<String, BaanError>(content),
            Err(error) => result matches Err(BaanError::Open { path, source }) && path@
                == config_path@ && source == error,
        },
{
    match content {
        Ok(content) => Ok(content),
        Err(source) => Err(BaanError::Open { path: config_path.to_owned(), source }),
    }
}

/// Whether `result` is what the file of this name comes to, given what came of
/// reading it.
pub open spec fn is_loaded(
    result: Result<(Settings, TriggerCommands)>,
    name: Seq<char>,
    content: std::result::Result<String, std::io::Error>,
) -> bool {
    match content {
        Ok(content) => is_config_of(result, content@),
        Err(error) => result matches Err(BaanError::Open { path, source }) && path@ == name
            && source == error,
    }
}

/// Settings and triggers of the file at `config_path`, given what came of
/// reading it.
pub fn load_config(
    config_path: &str,
    content: std::result::Result<String, std::io::Error>,
) -> (result: Result<(Settings, TriggerCommands)>)
    ensures
        is_loaded(result, config_path@, content),
{
    match read_config_file(config_path, content) {
        Ok(content) => parse_config_file(content.as_str()),
        Err(error) => Err(error),
    }
}

/// The default config path.
pub open spec fn config_path(
    xdg_config_home: Option<Seq<u8>>,
    home: Option<Seq<u8>>,
) -> Seq<u8> {
    let name = encode_utf8(CONFIG_FILE_NAME@);
    let relative = joined(encode_utf8("baan"@), name, 0x2f);
    match (xdg_config_home, home) {
        (Some(dir), _) if dir.len() > 0 => joined(dir, relative, 0x2f),
        (_, Some(home)) => joined(joined(home, encode_utf8(".config"@), 0x2f), relative, 0x2f),
        (_, None) => joined(encode_utf8("/"@), name, 0x2f),
    }
}

/// Returns the default config path following the XDG Base Directory
/// specification: `$XDG_CONFIG_HOME/baan/baan.toml`, falling back to
/// `~/.config/baan/baan.toml` when `XDG_CONFIG_HOME` is unset. As a last
/// resort (no home directory either) it returns `/baan.toml`.
///
/// Paths are bytes, as the operating system has them. An empty
/// `XDG_CONFIG_HOME` counts as unset.
pub fn default_config_path(xdg_config_home: Option<&[u8]>, home: Option<&[u8]>) -> (path: Vec<u8>)
    ensures
        path@ == config_path(
            match xdg_config_home {
                Some(dir) => Some(dir@),
                None => None,
            },
            match home {
                Some(dir) => Some(dir@),
                None => None,
            },
        ),
{
    let name = CONFIG_FILE_NAME.as_bytes();
    let relative = join_bytes("baan".as_bytes(), name);
    match xdg_config_home {
        Some(dir) if dir.len() > 0 => join_bytes(dir, relative.as_slice()),
        _ => match home {
            Some(home) => {
                let dir = join_bytes(home, ".config".as_bytes());
                join_bytes(dir.as_slice(), relative.as_slice())
            },
            None => join_bytes("/".as_bytes(), name),
        },
    }
}

// ---------------------------------------------------------------------------
// Laws
// ---------------------------------------------------------------------------

/// Keys of the `[baan]` table that mean nothing are ignored: two tables with
/// the same known settings come to the same.
pub proof fn law_unknown_settings_are_ignored(
    settings: Settings,
    first: Seq<(Seq<char>, MemberView)>,
    second: Seq<(Seq<char>, MemberView)>,
)
    requires
        forall|key: Seq<char>|
            is_setting(key) ==> #[trigger] member_of(first, key) == member_of(second, key),
    ensures
        with_settings(settings, first) == with_settings(settings, second),
{
    assert(is_setting("flush_delay_ms"@));
    assert(is_setting("clipboard_read_delay_ms"@));
    assert(is_setting("clipboard_write_delay_ms"@));
    assert(is_setting("command_timeout_secs"@));
    assert(member_of(first, "flush_delay_ms"@) == member_of(second, "flush_delay_ms"@));
    assert(member_of(first, "clipboard_read_delay_ms"@) == member_of(
        second,
        "clipboard_read_delay_ms"@,
    ));
    assert(member_of(first, "clipboard_write_delay_ms"@) == member_of(
        second,
        "clipboard_write_delay_ms"@,
    ));
    assert(member_of(first, "command_timeout_secs"@) == member_of(second, "command_timeout_secs"@));
}

/// Taking in a trigger keeps the names distinct, whatever their letter case;
/// it goes by its key without the white space around it.
pub proof fn law_triggers_stay_distinct(
    triggers: Map<Seq<char>, Seq<Seq<char>>>,
    key: Seq<char>,
    value: MemberView,
)
    requires
        case_distinct(triggers),
        with_trigger(triggers, key, value) is Ok,
    ensures
        case_distinct(with_trigger(triggers, key, value)->Ok_0),
        with_trigger(triggers, key, value)->Ok_0.dom().contains(trimmed(key)),
{
    let all = with_trigger(triggers, key, value)->Ok_0;
    let name = trimmed(key);
    assert forall|a: Seq<char>, b: Seq<char>| #[trigger]
        all.dom().contains(a) && #[trigger] all.dom().contains(b) && crate::text::folded(a)
            == crate::text::folded(b) implies a == b by {
        if a != name && b != name {
            assert(triggers.dom().contains(a) && triggers.dom().contains(b));
        } else if a != name {
            assert(triggers.dom().contains(a));
        } else if b != name {
            assert(triggers.dom().contains(b));
        }
    }
}

/// Taking in the triggers of a table keeps the names distinct.
proof fn lemma_tables_stay_distinct(
    triggers: Map<Seq<char>, Seq<Seq<char>>>,
    members: Seq<(Seq<char>, MemberView)>,
)
    requires
        case_distinct(triggers),
        with_triggers(triggers, members) is Ok,
    ensures
        case_distinct(with_triggers(triggers, members)->Ok_0),
    decreases members.len(),
{
    if members.len() > 0 {
        lemma_tables_stay_distinct(triggers, members.drop_last());
        law_triggers_stay_distinct(
            with_triggers(triggers, members.drop_last())->Ok_0,
            members.last().0,
            members.last().1,
        );
    }
}

/// No two triggers of a configuration differ only by letter case.
pub proof fn law_configured_triggers_are_distinct(entries: Seq<(Seq<char>, RootView)>)
    requires
        configured(entries) is Ok,
    ensures
        case_distinct(configured(entries)->Ok_0.triggers),
    decreases entries.len(),
{
    if entries.len() > 0 {
        law_configured_triggers_are_distinct(entries.drop_last());
        let before = configured(entries.drop_last())->Ok_0;
        let (key, value) = entries.last();
        if key == SETTINGS_TABLE@ {
        } else if key == TRIGGERS_TABLE@ {
            lemma_tables_stay_distinct(before.triggers, value->Table_0);
        } else {
            law_triggers_stay_distinct(before.triggers, key, without_members(value));
        }
    }
}

/// The key `baan` is reserved for settings: at the root it never makes a
/// trigger.
pub proof fn law_the_settings_key_is_reserved(config: ConfigView, value: RootView)
    requires
        with_entry(config, SETTINGS_TABLE@, value) is Ok,
    ensures
        with_entry(config, SETTINGS_TABLE@, value)->Ok_0.triggers == config.triggers,
        value is Table,
{
}

/// The key `triggers` is reserved for the triggers table: at the root it adds
/// that table's triggers and no other.
pub proof fn law_the_triggers_key_is_reserved(config: ConfigView, value: RootView)
    requires
        with_entry(config, TRIGGERS_TABLE@, value) is Ok,
    ensures
        value is Table,
        with_triggers(config.triggers, value->Table_0) == Ok::<
            Map<Seq<char>, Seq<Seq<char>>>,
            Seq<char>,
        >(with_entry(config, TRIGGERS_TABLE@, value)->Ok_0.triggers),
        with_entry(config, TRIGGERS_TABLE@, value)->Ok_0.settings == config.settings,
{
    reveal_strlit("baan");
    reveal_strlit("triggers");
    assert(SETTINGS_TABLE@.len() != TRIGGERS_TABLE@.len());
}

/// Whether a text is the plain text of a single value: a text is itself, an
/// integer its decimal digits, behind a minus sign where it is negative, a
/// boolean its name. (Floats and datetimes come as texts.)
pub open spec fn is_plain_text(scalar: ScalarView, text: Seq<char>) -> bool {
    match scalar {
        ScalarView::Text(given) => text == given,
        ScalarView::Float(given) => text == given,
        ScalarView::Datetime(given) => text == given,
        ScalarView::Integer(i) => {
            let digits = if i < 0 {
                text.skip(1)
            } else {
                text
            };
            &&& i < 0 ==> text.len() > 0 && text[0] == '-'
            &&& digits.len() > 0
            &&& forall|k: int| 0 <= k < digits.len() ==> '0' <= #[trigger] digits[k] <= '9'
            &&& digits_value(digits) == if i < 0 {
                -(i as int)
            } else {
                i as int
            }
        },
        ScalarView::Boolean(b) => text == if b {
            seq!['t', 'r', 'u', 'e']
        } else {
            seq!['f', 'a', 'l', 's', 'e']
        },
    }
}

/// Whether a command is what a value of the configuration stands for: one word
/// for a single value; for an array of single values one word for each, in
/// their order. Tables stand for none.
pub open spec fn is_command_of(value: MemberView, command: Seq<Seq<char>>) -> bool {
    match value {
        ValueView::Scalar(scalar) => command.len() == 1 && is_plain_text(scalar, command[0]),
        ValueView::Array(items) => {
            &&& command.len() == items.len()
            &&& forall|i: int|
                0 <= i < items.len() ==> (#[trigger] items[i] matches Some(scalar) && is_plain_text(
                    scalar,
                    command[i],
                ))
        },
        ValueView::Table(_) => false,
    }
}

/// A single value is converted to its plain text.
pub proof fn law_values_are_converted_to_plain_text(scalar: ScalarView)
    ensures
        is_plain_text(scalar, scalar_text(scalar)),
{
    reveal_strlit("true");
    reveal_strlit("false");
    let text = scalar_text(scalar);
    match scalar {
        ScalarView::Integer(i) => {
            law_signs(i as int);
            let magnitude: nat = if i < 0 {
                (-(i as int)) as nat
            } else {
                i as nat
            };
            law_decimal_reads_back(magnitude);
            let digits = decimal(magnitude);
            assert forall|k: int| 0 <= k < digits.len() implies '0' <= #[trigger] digits[k]
                <= '9' by {
                assert(crate::number::is_digit(digits[k]));
            }
        },
        ScalarView::Boolean(b) => {
            assert("true"@ =~= seq!['t', 'r', 'u', 'e']);
            assert("false"@ =~= seq!['f', 'a', 'l', 's', 'e']);
        },
        _ => {},
    }
}

/// A value has a command if and only if it is a single value or an array of
/// single values, and then all its words are there: as many as the array has
/// items, each the plain text of its item.
pub proof fn law_commands_have_all_their_words(value: MemberView)
    ensures
        command_of(value) matches Some(command) ==> is_command_of(value, command),
        command_of(value) is Some <==> match value {
            ValueView::Scalar(_) => true,
            ValueView::Array(items) => forall|i: int|
                0 <= i < items.len() ==> (#[trigger] items[i]) is Some,
            ValueView::Table(_) => false,
        },
{
    match value {
        ValueView::Scalar(scalar) => law_values_are_converted_to_plain_text(scalar),
        ValueView::Array(items) => {
            if let Some(command) = command_of(value) {
                assert forall|i: int| 0 <= i < items.len() implies (#[trigger] items[i] matches Some(
                    scalar,
                ) && is_plain_text(scalar, command[i])) by {
                    assert(items[i] is Some);
                    law_values_are_converted_to_plain_text(items[i]->0);
                }
            }
        },
        ValueView::Table(_) => {},
    }
}

/// A trigger is refused if and only if its key is blank, its value has no
/// command, or a trigger of the same name, whatever its letter case, is there
/// already. Otherwise it is added, under its key without the white space
/// around it, and the other triggers stay as they are.
pub proof fn law_triggers_are_added_or_refused(
    triggers: Map<Seq<char>, Seq<Seq<char>>>,
    key: Seq<char>,
    value: MemberView,
)
    ensures
        with_trigger(triggers, key, value) is Err <==> trimmed(key).len() == 0 || (forall|
            command: Seq<Seq<char>>,
        | !#[trigger] is_command_of(value, command)) || exists|other: Seq<char>| #[trigger]
            triggers.dom().contains(other) && folded(other) == folded(trimmed(key)),
        with_trigger(triggers, key, value) matches Ok(all) ==> {
            &&& all.dom() == triggers.dom().insert(trimmed(key))
            &&& is_command_of(value, all[trimmed(key)])
            &&& forall|other: Seq<char>| #[trigger]
                triggers.dom().contains(other) ==> all[other] == triggers[other]
        },
{
    law_commands_have_all_their_words(value);
    if command_of(value) is None {
        assert forall|command: Seq<Seq<char>>| !#[trigger] is_command_of(value, command) by {
            if is_command_of(value, command) {
                match value {
                    ValueView::Array(items) => {
                        assert forall|i: int| 0 <= i < items.len() implies (
                        #[trigger] items[i]) is Some by {}
                    },
                    _ => {},
                }
            }
        }
    } else {
        assert(is_command_of(value, command_of(value)->0));
    }
    if let Ok(all) = with_trigger(triggers, key, value) {
        assert(all.dom() =~= triggers.dom().insert(trimmed(key)));
    }
}

/// Every trigger of a table is in the triggers with its command, those that
/// were there before stay, and there are no others.
proof fn lemma_tables_are_taken_in(
    triggers: Map<Seq<char>, Seq<Seq<char>>>,
    members: Seq<(Seq<char>, MemberView)>,
)
    requires
        with_triggers(triggers, members) is Ok,
    ensures
        ({
            let all = with_triggers(triggers, members)->Ok_0;
            &&& forall|name: Seq<char>| #[trigger]
                triggers.dom().contains(name) ==> all.dom().contains(name) && all[name]
                    == triggers[name]
            &&& forall|j: int|
                0 <= j < members.len() ==> {
                    let name = trimmed((#[trigger] members[j]).0);
                    all.dom().contains(name) && is_command_of(members[j].1, all[name])
                }
            &&& forall|name: Seq<char>| #[trigger]
                all.dom().contains(name) ==> triggers.dom().contains(name) || exists|j: int|
                    0 <= j < members.len() && trimmed((#[trigger] members[j]).0) == name
        }),
    decreases members.len(),
{
    if members.len() > 0 {
        let rest = members.drop_last();
        let (key, value) = members.last();
        lemma_tables_are_taken_in(triggers, rest);
        let before = with_triggers(triggers, rest)->Ok_0;
        let all = with_triggers(triggers, members)->Ok_0;
        law_triggers_are_added_or_refused(before, key, value);
        assert forall|name: Seq<char>| #[trigger] triggers.dom().contains(name) implies all.dom().contains(
            name,
        ) && all[name] == triggers[name] by {
            assert(before.dom().contains(name));
        }
        assert forall|j: int| 0 <= j < members.len() implies {
            let name = trimmed((#[trigger] members[j]).0);
            all.dom().contains(name) && is_command_of(members[j].1, all[name])
        } by {
            if j < rest.len() {
                assert(rest[j] == members[j]);
                assert(before.dom().contains(trimmed(rest[j].0)));
            }
        }
        assert forall|name: Seq<char>| #[trigger] all.dom().contains(name) implies triggers.dom().contains(
            name,
        ) || exists|j: int|
            0 <= j < members.len() && trimmed((#[trigger] members[j]).0) == name by {
            if name == trimmed(key) {
                assert(trimmed(members[members.len() - 1].0) == name);
            } else {
                assert(before.dom().contains(name));
                if !triggers.dom().contains(name) {
                    let j = choose|j: int|
                        0 <= j < rest.len() && trimmed((#[trigger] rest[j]).0) == name;
                    assert(members[j] == rest[j]);
                }
            }
        }
    }
}

/// Whether entry `i` of the root table is a trigger.
pub open spec fn is_root_trigger(entries: Seq<(Seq<char>, RootView)>, i: int) -> bool {
    0 <= i < entries.len() && entries[i].0 != "baan"@ && entries[i].0 != "triggers"@
}

/// Whether member `j` of entry `i` of the root table is a trigger: entry `i` is
/// the table of triggers.
pub open spec fn is_table_trigger(entries: Seq<(Seq<char>, RootView)>, i: int, j: int) -> bool {
    &&& 0 <= i < entries.len()
    &&& entries[i].0 == "triggers"@
    &&& entries[i].1 matches ValueView::Table(members)
    &&& 0 <= j < members.len()
}

/// The triggers of a configuration are those of its root table and of its
/// `triggers` table, each under its key without the white space around it and
/// with all the words of its command, and no others.
pub proof fn law_a_configuration_has_all_its_triggers(entries: Seq<(Seq<char>, RootView)>)
    requires
        configured(entries) is Ok,
    ensures
        ({
            let triggers = configured(entries)->Ok_0.triggers;
            &&& forall|i: int| #[trigger]
                is_root_trigger(entries, i) ==> triggers.dom().contains(trimmed(entries[i].0))
                    && is_command_of(
                    without_members(entries[i].1),
                    triggers[trimmed(entries[i].0)],
                )
            &&& forall|i: int, j: int| #[trigger]
                is_table_trigger(entries, i, j) ==> {
                    let (key, value) = entries[i].1->Table_0[j];
                    triggers.dom().contains(trimmed(key)) && is_command_of(
                        value,
                        triggers[trimmed(key)],
                    )
                }
            &&& forall|name: Seq<char>| #[trigger]
                triggers.dom().contains(name) ==> (exists|i: int| #[trigger]
                    is_root_trigger(entries, i) && trimmed(entries[i].0) == name) || (exists|
                    i: int,
                    j: int,
                | #[trigger]
                    is_table_trigger(entries, i, j) && trimmed(entries[i].1->Table_0[j].0) == name)
        }),
    decreases entries.len(),
{
    reveal_strlit("baan");
    reveal_strlit("triggers");
    assert(SETTINGS_TABLE@.len() != TRIGGERS_TABLE@.len());
    if entries.len() > 0 {
        let rest = entries.drop_last();
        law_a_configuration_has_all_its_triggers(rest);
        let before = configured(rest)->Ok_0;
        let after = configured(entries)->Ok_0;
        let last = entries.len() - 1;
        let (key, value) = entries.last();
        if key == "triggers"@ {
            lemma_tables_are_taken_in(before.triggers, value->Table_0);
        } else if key != "baan"@ {
            law_triggers_are_added_or_refused(before.triggers, key, without_members(value));
        }
        assert forall|i: int| #[trigger] is_root_trigger(entries, i) implies after.triggers.dom().contains(
            trimmed(entries[i].0),
        ) && is_command_of(
            without_members(entries[i].1),
            after.triggers[trimmed(entries[i].0)],
        ) by {
            if i < last {
                assert(rest[i] == entries[i]);
                assert(is_root_trigger(rest, i));
                assert(before.triggers.dom().contains(trimmed(rest[i].0)));
            }
        }
        assert forall|i: int, j: int| #[trigger] is_table_trigger(entries, i, j) implies {
            let (key, value) = entries[i].1->Table_0[j];
            after.triggers.dom().contains(trimmed(key)) && is_command_of(
                value,
                after.triggers[trimmed(key)],
            )
        } by {
            if i < last {
                assert(rest[i] == entries[i]);
                assert(is_table_trigger(rest, i, j));
                assert(before.triggers.dom().contains(trimmed(rest[i].1->Table_0[j].0)));
            } else {
                assert(value->Table_0[j] == entries[i].1->Table_0[j]);
            }
        }
        assert forall|name: Seq<char>| #[trigger] after.triggers.dom().contains(name) implies (
        exists|i: int| #[trigger] is_root_trigger(entries, i) && trimmed(entries[i].0) == name) || (
        exists|i: int, j: int| #[trigger]
            is_table_trigger(entries, i, j) && trimmed(entries[i].1->Table_0[j].0) == name) by {
            if before.triggers.dom().contains(name) {
                if exists|i: int| #[trigger]
                    is_root_trigger(rest, i) && trimmed(rest[i].0) == name {
                    let i = choose|i: int| #[trigger]
                        is_root_trigger(rest, i) && trimmed(rest[i].0) == name;
                    assert(rest[i] == entries[i]);
                    assert(is_root_trigger(entries, i));
                } else {
                    let (i, j) = choose|i: int, j: int| #[trigger]
                        is_table_trigger(rest, i, j) && trimmed(rest[i].1->Table_0[j].0) == name;
                    assert(rest[i] == entries[i]);
                    assert(is_table_trigger(entries, i, j));
                }
            } else if key == "triggers"@ {
                let members = value->Table_0;
                let j = choose|j: int|
                    0 <= j < members.len() && trimmed((#[trigger] members[j]).0) == name;
                assert(is_table_trigger(entries, last, j));
            } else {
                assert(is_root_trigger(entries, last));
            }
        }
    }
}

/// The member with a key is the first with that key; there is none if and only
/// if no member has it.
pub proof fn law_members_are_found_by_key(members: Seq<(Seq<char>, MemberView)>, key: Seq<char>)
    ensures
        match member_of(members, key) {
            Some(value) => exists|i: int|
                {
                    &&& 0 <= i < members.len()
                    &&& #[trigger] members[i] == (key, value)
                    &&& forall|j: int| 0 <= j < i ==> (#[trigger] members[j]).0 != key
                },
            None => forall|i: int| 0 <= i < members.len() ==> (#[trigger] members[i]).0 != key,
        },
    decreases members.len(),
{
    if members.len() > 0 {
        if members.first().0 == key {
            assert(members[0] == (key, members.first().1));
        } else {
            let rest = members.skip(1);
            law_members_are_found_by_key(rest, key);
            match member_of(members, key) {
                Some(value) => {
                    let i = choose|i: int|
                        {
                            &&& 0 <= i < rest.len()
                            &&& #[trigger] rest[i] == (key, value)
                            &&& forall|j: int| 0 <= j < i ==> (#[trigger] rest[j]).0 != key
                        };
                    assert(members[i + 1] == rest[i]);
                    assert forall|j: int| 0 <= j < i + 1 implies (#[trigger] members[j]).0
                        != key by {
                        if j > 0 {
                            assert(rest[j - 1] == members[j]);
                        }
                    }
                },
                None => {
                    assert forall|i: int| 0 <= i < members.len() implies (#[trigger] members[i]).0
                        != key by {
                        if i > 0 {
                            assert(rest[i - 1] == members[i]);
                        }
                    }
                },
            }
        }
    }
}

/// Whether a setting in milliseconds comes of a member: it keeps its value
/// where there is none, and is the member's number otherwise.
pub open spec fn is_delay_of(member: Option<MemberView>, default: u64, delay: u64) -> bool {
    match member {
        None => delay == default,
        Some(ValueView::Scalar(ScalarView::Integer(i))) => delay == i,
        Some(_) => false,
    }
}

/// Each setting comes of its own key of the `[baan]` table and of no other:
/// delays are the numbers given, the timeout is that many whole seconds, and a
/// setting without a key keeps its value. The table is refused if and only if
/// a delay is no number of zero or more, or the timeout none above zero.
pub proof fn law_settings_come_of_their_keys(
    settings: Settings,
    members: Seq<(Seq<char>, MemberView)>,
)
    ensures
        ({
            let flush = member_of(members, "flush_delay_ms"@);
            let read = member_of(members, "clipboard_read_delay_ms"@);
            let write = member_of(members, "clipboard_write_delay_ms"@);
            let timeout = member_of(members, "command_timeout_secs"@);
            match with_settings(settings, members) {
                Ok(after) => {
                    &&& is_delay_of(flush, settings.flush_delay_ms, after.flush_delay_ms)
                    &&& is_delay_of(
                        read,
                        settings.clipboard_read_delay_ms,
                        after.clipboard_read_delay_ms,
                    )
                    &&& is_delay_of(
                        write,
                        settings.clipboard_write_delay_ms,
                        after.clipboard_write_delay_ms,
                    )
                    &&& is_delay_of(timeout, settings.command_timeout.secs, after.command_timeout.secs)
                    &&& timeout is None ==> after.command_timeout == settings.command_timeout
                    &&& timeout is Some ==> after.command_timeout.secs > 0
                        && after.command_timeout.nanos == 0
                },
                Err(_) => {
                    ||| forall|delay: u64| !#[trigger] is_delay_of(flush, 0, delay)
                    ||| forall|delay: u64| !#[trigger] is_delay_of(read, 0, delay)
                    ||| forall|delay: u64| !#[trigger] is_delay_of(write, 0, delay)
                    ||| forall|secs: u64| secs == 0 || !#[trigger] is_delay_of(timeout, 1, secs)
                },
            }
        }),
{
}

/// Without a `[baan]` table the settings are the defaults: delays of 100, 120
/// and 80 milliseconds and a timeout of 15 seconds. With one they are those of
/// its table.
pub proof fn law_settings_of_a_configuration(entries: Seq<(Seq<char>, RootView)>, at: int)
    requires
        configured(entries) is Ok,
        forall|i: int| 0 <= i < entries.len() && (#[trigger] entries[i]).0 == "baan"@ ==> i == at,
    ensures
        ({
            let settings = configured(entries)->Ok_0.settings;
            let defaults = Settings {
                flush_delay_ms: 100,
                clipboard_read_delay_ms: 120,
                clipboard_write_delay_ms: 80,
                command_timeout: Timeout { secs: 15, nanos: 0 },
            };
            if 0 <= at < entries.len() && entries[at].0 == "baan"@ {
                &&& entries[at].1 matches ValueView::Table(members)
                &&& with_settings(defaults, members) == Ok::<Settings, Seq<char>>(settings)
            } else {
                settings == defaults
            }
        }),
    decreases entries.len(),
{
    if entries.len() > 0 {
        let rest = entries.drop_last();
        assert forall|i: int| 0 <= i < rest.len() && (#[trigger] rest[i]).0 == "baan"@ implies i
            == at by {
            assert(entries[i] == rest[i]);
        }
        law_settings_of_a_configuration(rest, at);
        if 0 <= at < rest.len() {
            assert(rest[at] == entries[at]);
        }
        if entries.last().0 == "baan"@ {
            assert(entries[entries.len() - 1].0 == "baan"@);
        }
    }
}

/// A line number counts the newlines before the offset, and starts at one.
pub proof fn law_line_numbers_count_newlines(bytes: Seq<u8>, n: int)
    requires
        0 <= n <= bytes.len(),
    ensures
        newlines_before(bytes, n) == bytes.take(n).filter(|b: u8| b == 10).len(),
    decreases n,
{
    reveal(Seq::filter);
    if n > 0 {
        law_line_numbers_count_newlines(bytes, n - 1);
        assert(bytes.take(n).drop_last() =~= bytes.take(n - 1));
        assert(bytes.take(n).last() == bytes[n - 1]);
    }
}

/// The keys that are reported as unknown are those of the table that name none
/// of the four settings.
pub proof fn law_unknown_keys_name_no_setting(
    members: Seq<(Seq<char>, MemberView)>,
    key: Seq<char>,
)
    ensures
        unknown_keys(members).contains(key) <==> key != "flush_delay_ms"@ && key
            != "clipboard_read_delay_ms"@ && key != "clipboard_write_delay_ms"@ && key
            != "command_timeout_secs"@ && exists|i: int|
            0 <= i < members.len() && (#[trigger] members[i]).0 == key,
    decreases members.len(),
{
    let keys = unknown_keys(members);
    if members.len() > 0 {
        let rest = members.drop_last();
        let before = unknown_keys(rest);
        law_unknown_keys_name_no_setting(rest, key);
        assert(members[members.len() - 1] == members.last());
        if before.contains(key) {
            let i = choose|i: int| 0 <= i < before.len() && before[i] == key;
            assert(keys[i] == key);
            let j = choose|j: int| 0 <= j < rest.len() && (#[trigger] rest[j]).0 == key;
            assert(members[j] == rest[j]);
        } else if keys.contains(key) {
            let i = choose|i: int| 0 <= i < keys.len() && keys[i] == key;
            assert(i == before.len()) by {
                if i < before.len() {
                    assert(before[i] == key);
                }
            }
        } else if exists|i: int| 0 <= i < members.len() && (#[trigger] members[i]).0 == key {
            let i = choose|i: int| 0 <= i < members.len() && (#[trigger] members[i]).0 == key;
            if i < rest.len() {
                assert(rest[i] == members[i]);
            } else if !is_setting(key) {
                assert(keys[keys.len() - 1] == key);
            }
        }
    }
}

/// Nothing of a document is lost on the way: every entry is there with its key,
/// every member of a table and every item of an array is there, in their
/// order, single values as they are.
pub proof fn law_documents_are_read_whole(
    entries: Seq<(Seq<char>, toml::Value)>,
    values: Seq<toml::Value>,
    i: int,
)
    ensures
        toml_roots(entries).len() == entries.len(),
        0 <= i < entries.len() ==> toml_roots(entries)[i].0 == entries[i].0 && match toml_contents(
            entries[i].1,
        ) {
            TomlView::Scalar(scalar) => toml_roots(entries)[i].1 == ValueView::<
                Seq<(Seq<char>, MemberView)>,
            >::Scalar(scalar),
            TomlView::Array(items) => toml_roots(entries)[i].1 == ValueView::<
                Seq<(Seq<char>, MemberView)>,
            >::Array(toml_items(items)),
            TomlView::Table(members) => toml_roots(entries)[i].1 == ValueView::Table(
                toml_members(members),
            ),
        },
        toml_members(entries).len() == entries.len(),
        0 <= i < entries.len() ==> toml_members(entries)[i].0 == entries[i].0 && match toml_contents(
            entries[i].1,
        ) {
            TomlView::Scalar(scalar) => toml_members(entries)[i].1 == ValueView::<()>::Scalar(
                scalar,
            ),
            TomlView::Array(items) => toml_members(entries)[i].1 == ValueView::<()>::Array(
                toml_items(items),
            ),
            TomlView::Table(_) => toml_members(entries)[i].1 is Table,
        },
        toml_items(values).len() == values.len(),
        0 <= i < values.len() ==> toml_items(values)[i] == match toml_contents(values[i]) {
            TomlView::Scalar(scalar) => Some(scalar),
            _ => None,
        },
{
}

/// The text of a configuration file comes to what its document comes to, and a
/// text that is no document to an error that names the line.
pub proof fn law_files_come_to_their_documents(
    result: Result<(Settings, TriggerCommands)>,
    content: Seq<char>,
)
    requires
        is_config_of(result, content),
    ensures
        result is Ok <==> (toml_document(content) is Ok && configured(
            toml_roots(toml_document(content)->Ok_0),
        ) is Ok),
        result matches Ok((settings, triggers)) ==> {
            let config = configured(toml_roots(toml_document(content)->Ok_0))->Ok_0;
            settings == config.settings && triggers@ == config.triggers
        },
        result matches Err(error) ==> error is ParseConfigFile,
        toml_document(content) matches Err((Some(offset), _)) ==> (0 <= offset && line_at(
            content,
            offset,
        ) <= usize::MAX ==> (result matches Err(BaanError::ParseConfigFile { line, .. }) && line
            == 1 + newlines_before(vstd::utf8::encode_utf8(content), offset))),
{
}

/// Values are seen as they are: nothing of a text, a number, an array, a table
/// or a document is changed, added or left out.
pub proof fn law_values_are_seen_whole(
    scalar: Scalar,
    items: Seq<Option<Scalar>>,
    members: Seq<(String, Member)>,
    entries: Seq<(String, RootValue)>,
    i: int,
)
    ensures
        match scalar {
            Scalar::Text(text) => scalar@ == ScalarView::Text(text@),
            Scalar::Integer(n) => scalar@ == ScalarView::Integer(n),
            Scalar::Float(text) => scalar@ == ScalarView::Float(text@),
            Scalar::Boolean(b) => scalar@ == ScalarView::Boolean(b),
            Scalar::Datetime(text) => scalar@ == ScalarView::Datetime(text@),
        },
        items_view(items).len() == items.len(),
        0 <= i < items.len() ==> items_view(items)[i] == match items[i] {
            Some(scalar) => Some(scalar@),
            None => None,
        },
        members_view(members).len() == members.len(),
        0 <= i < members.len() ==> members_view(members)[i].0 == members[i].0@
            && match members[i].1 {
            ConfigValue::Scalar(scalar) => members_view(members)[i].1 == ValueView::<()>::Scalar(
                scalar@,
            ),
            ConfigValue::Array(items) => members_view(members)[i].1 == ValueView::<()>::Array(
                items_view(items@),
            ),
            ConfigValue::Table(_) => members_view(members)[i].1 is Table,
        },
        document_view(entries).len() == entries.len(),
        0 <= i < entries.len() ==> document_view(entries)[i].0 == entries[i].0@
            && match entries[i].1 {
            ConfigValue::Scalar(scalar) => document_view(entries)[i].1 == ValueView::<
                Seq<(Seq<char>, MemberView)>,
            >::Scalar(scalar@),
            ConfigValue::Array(items) => document_view(entries)[i].1 == ValueView::<
                Seq<(Seq<char>, MemberView)>,
            >::Array(items_view(items@)),
            ConfigValue::Table(members) => document_view(entries)[i].1 == ValueView::Table(
                members_view(members@),
            ),
        },
{
}

/// Without its members a value at the root is what it is: a single value and an
/// array stay, a table stays a table.
pub proof fn law_values_at_the_root_without_members(value: RootView)
    ensures
        match value {
            ValueView::Scalar(scalar) => without_members(value) == ValueView::<()>::Scalar(scalar),
            ValueView::Array(items) => without_members(value) == ValueView::<()>::Array(items),
            ValueView::Table(_) => without_members(value) is Table,
        },
{
}

/// What a refused trigger is told: that its key is empty, that an argument is
/// an array or table, or that it is a duplicate, with its name.
pub proof fn law_refused_triggers_are_told_why(
    triggers: Map<Seq<char>, Seq<Seq<char>>>,
    key: Seq<char>,
    value: MemberView,
)
    ensures
        with_trigger(triggers, key, value) matches Err(complaint) ==> if trimmed(key).len() == 0 {
            complaint == "Empty trigger key is not allowed"@
        } else if forall|command: Seq<Seq<char>>| !#[trigger] is_command_of(value, command) {
            complaint == "trigger '"@ + trimmed(key)
                + "' has a command argument that is an array or table; only strings, numbers, booleans, and datetimes are allowed"@
        } else {
            complaint == "Duplicate trigger '"@ + trimmed(key) + "'"@
        },
{
    law_commands_have_all_their_words(value);
    if command_of(value) is Some {
        assert(is_command_of(value, command_of(value)->0));
    } else {
        assert forall|command: Seq<Seq<char>>| !#[trigger] is_command_of(value, command) by {
            if is_command_of(value, command) {
                match value {
                    ValueView::Array(items) => {
                        assert forall|i: int| 0 <= i < items.len() implies (
                        #[trigger] items[i]) is Some by {}
                    },
                    _ => {},
                }
            }
        }
    }
}

/// What a refused setting is told: its name, and what it must be.
pub proof fn law_refused_settings_are_told_why(
    members: Seq<(Seq<char>, MemberView)>,
    key: Seq<char>,
    default: u64,
    timeout: Timeout,
)
    ensures
        delay_setting(members, key, default) matches Err(complaint) ==> match member_of(
            members,
            key,
        ) {
            Some(ValueView::Scalar(ScalarView::Integer(_))) => complaint == key
                + " must be a non-negative integer"@,
            _ => complaint == key + " must be an integer"@,
        },
        timeout_setting(members, timeout) matches Err(complaint) ==> complaint
            == "command_timeout_secs must be a positive integer"@,
{
}

/// The first entry that is refused is what a configuration is refused for.
pub proof fn law_the_first_complaint_counts(
    before: Seq<(Seq<char>, RootView)>,
    entry: (Seq<char>, RootView),
    after: Seq<(Seq<char>, RootView)>,
)
    requires
        configured(before) is Ok,
        with_entry(configured(before)->Ok_0, entry.0, entry.1) is Err,
    ensures
        configured(before.push(entry) + after) == Err::<ConfigView, Seq<char>>(
            with_entry(configured(before)->Ok_0, entry.0, entry.1)->Err_0,
        ),
{
    let all = before.push(entry) + after;
    let n = before.len() as int + 1;
    assert(all.take(n) =~= before.push(entry));
    assert(before.push(entry).drop_last() =~= before);
    lemma_config_refused(all, n);
}

/// The configuration is looked for in the directory for configurations, else in
/// `.config` in the home directory, else at the root. An empty directory for
/// configurations counts as none.
pub proof fn law_where_the_configuration_is(dir: Seq<u8>, home: Seq<u8>, other: Option<Seq<u8>>)
    requires
        dir.len() > 0 && dir.last() != 0x2f,
        home.len() > 0 && home.last() != 0x2f,
    ensures
        ({
            let slash = seq![0x2fu8];
            let tail = slash + encode_utf8("baan"@) + slash + encode_utf8("baan.toml"@);
            &&& config_path(Some(dir), other) == dir + tail
            &&& config_path(None, Some(home)) == home + slash + encode_utf8(".config"@) + tail
            &&& config_path(Some(Seq::empty()), Some(home)) == home + slash + encode_utf8(
                ".config"@,
            ) + tail
            &&& config_path(None, None) == slash + encode_utf8("baan.toml"@)
        }),
{
    lemma_path_bytes();
    let slash = seq![0x2fu8];
    let folder = encode_utf8("baan"@);
    let name = encode_utf8("baan.toml"@);
    let hidden = encode_utf8(".config"@);
    let relative = joined(folder, name, 0x2f);
    assert(relative =~= folder + slash + name);
    let tail = slash + folder + slash + name;
    assert(joined(dir, relative, 0x2f) =~= dir + tail);
    let below = joined(home, hidden, 0x2f);
    assert(below =~= home + slash + hidden);
    assert(joined(below, relative, 0x2f) =~= home + slash + hidden + tail);
    assert(joined(encode_utf8("/"@), name, 0x2f) =~= slash + name);
}

/// The bytes of the names on the way to the configuration.
proof fn lemma_path_bytes()
    ensures
        encode_utf8("baan"@) == seq![98u8, 97u8, 97u8, 110u8],
        encode_utf8("baan.toml"@) == seq![
            98u8, 97u8, 97u8, 110u8, 46u8, 116u8, 111u8, 109u8, 108u8,
        ],
        encode_utf8(".config"@) == seq![46u8, 99u8, 111u8, 110u8, 102u8, 105u8, 103u8],
        encode_utf8("/"@) == seq![0x2fu8],
{
    reveal_strlit("baan");
    reveal_strlit("baan.toml");
    reveal_strlit(".config");
    reveal_strlit("/");
    vstd::utf8::is_ascii_chars_encode_utf8("baan"@);
    vstd::utf8::is_ascii_chars_encode_utf8("baan.toml"@);
    vstd::utf8::is_ascii_chars_encode_utf8(".config"@);
    vstd::utf8::is_ascii_chars_encode_utf8("/"@);
    assert(encode_utf8("baan"@) =~= seq![98u8, 97u8, 97u8, 110u8]);
    assert(encode_utf8("baan.toml"@) =~= seq![
        98u8, 97u8, 97u8, 110u8, 46u8, 116u8, 111u8, 109u8, 108u8,
    ]);
    assert(encode_utf8(".config"@) =~= seq![46u8, 99u8, 111u8, 110u8, 102u8, 105u8, 103u8]);
    assert(encode_utf8("/"@) =~= seq![0x2fu8]);
}

/// A file that was read comes to what its text comes to; one that was not is an
/// error that names it and has the operating system's words.
pub proof fn law_files_are_loaded(
    result: Result<(Settings, TriggerCommands)>,
    name: Seq<char>,
    text: String,
    cause: std::io::Error,
)
    ensures
        is_loaded(result, name, Ok(text)) ==> is_config_of(result, text@),
        is_loaded(result, name, Err(cause)) ==> (result matches Err(
            BaanError::Open { path, source },
        ) && path@ == name && source == cause),
{
}

/// The members of the settings are those of the first entry named `baan`, if it
/// is a table.
pub proof fn law_settings_are_in_the_baan_table(
    entries: Seq<(Seq<char>, RootView)>,
    members: Seq<(Seq<char>, MemberView)>,
    at: int,
)
    ensures
        0 <= at < entries.len() && entries[at] == ("baan"@, ValueView::Table(members)) && (forall|
            i: int,
        | 0 <= i < at ==> (#[trigger] entries[i]).0 != "baan"@) ==> settings_members(entries)
            == members,
        (forall|i: int| 0 <= i < entries.len() ==> (#[trigger] entries[i]).0 != "baan"@)
            ==> settings_members(entries).len() == 0,
    decreases entries.len(),
{
    if entries.len() > 0 && entries[0].0 != "baan"@ {
        let rest = entries.skip(1);
        law_settings_are_in_the_baan_table(rest, members, at - 1);
        assert forall|i: int| 0 <= i < rest.len() implies #[trigger] rest[i] == entries[i + 1] by {}
        if 0 < at < entries.len() {
            assert(rest[at - 1] == entries[at]);
        }
    }
}

} // verus!
