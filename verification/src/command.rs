//! Commands: filling in their arguments and judging how a run ended.
use crate::error::{BaanError, Result};
use crate::number::{decimal, decimal_text};
use crate::path::{file_name, file_name_of};
use crate::text::{chars_of, interleaved, same_text, spells, strs_view, texts_view};
use vstd::prelude::*;
use vstd::string::*;

verus! {

// ---------------------------------------------------------------------------
// Shells
// ---------------------------------------------------------------------------

/// The names of the known shell programs.
pub open spec fn is_shell_name(name: Seq<char>) -> bool {
    ||| name == "sh"@
    ||| name == "bash"@
    ||| name == "zsh"@
    ||| name == "dash"@
    ||| name == "ash"@
    ||| name == "ksh"@
    ||| name == "mksh"@
}

/// Whether `command` names a shell program, by its file name where it has one.
pub open spec fn is_shell(command: Seq<char>) -> bool {
    match file_name_of(command) {
        Some(name) => is_shell_name(name),
        None => is_shell_name(command),
    }
}

/// Whether `command` names a shell program.
pub fn is_shell_command(command: &str) -> (shell: bool)
    ensures
        shell == is_shell(command@),
{
    let chars = match file_name(command) {
        Some(name) => name,
        None => chars_of(command),
    };
    let name = chars.as_slice();
    spells(name, "sh") || spells(name, "bash") || spells(name, "zsh") || spells(name, "dash")
        || spells(name, "ash") || spells(name, "ksh") || spells(name, "mksh")
}

/// The first position of `wanted` in `texts` at or after `from`.
pub open spec fn position_of(texts: Seq<Seq<char>>, wanted: Seq<char>, from: int) -> Option<int>
    decreases texts.len() - from,
{
    if from >= texts.len() {
        None
    } else if texts[from] == wanted {
        Some(from)
    } else {
        position_of(texts, wanted, from + 1)
    }
}

/// Where the script of a `<shell> -c <script>` invocation stands: right after
/// the first `-c`.
pub open spec fn script_position(args: Seq<Seq<char>>) -> Option<int> {
    match position_of(args, "-c"@, 0) {
        Some(at) => Some(at + 1),
        None => None,
    }
}

/// Index of the script argument for a `<shell> -c <script>` invocation, if any.
pub fn shell_script_index(args: &[String]) -> (index: Option<usize>)
    ensures
        match index {
            Some(index) => script_position(texts_view(args@)) == Some(index as int),
            None => script_position(texts_view(args@)) is None,
        },
{
    let ghost texts = texts_view(args@);
    let mut i: usize = 0;
    while i < args.len()
        invariant
            i <= args@.len(),
            texts == texts_view(args@),
            position_of(texts, "-c"@, 0) == position_of(texts, "-c"@, i as int),
        decreases args@.len() - i,
    {
        assert(texts[i as int] == args@[i as int]@);
        if same_text(args[i].as_str(), "-c") {
            return Some(i + 1);
        }
        i += 1;
    }
    None
}

// ---------------------------------------------------------------------------
// Placeholders
// ---------------------------------------------------------------------------

/// Whether a `{}` placeholder stands in `s` at position `at`.
pub open spec fn placeholder_at(s: Seq<char>, at: int) -> bool {
    0 <= at && at + 1 < s.len() && s[at] == '{' && s[at + 1] == '}'
}

/// Whether `s` contains a `{}` placeholder.
pub open spec fn contains_placeholder(s: Seq<char>) -> bool {
    exists|at: int| placeholder_at(s, at)
}

/// Whether a placeholder stands at `at`.
fn is_placeholder_at(s: &[char], at: usize) -> (found: bool)
    requires
        at < s@.len(),
    ensures
        found == placeholder_at(s@, at as int),
{
    s[at] == '{' && s.len() - at > 1 && s[at + 1] == '}'
}

/// Whether `s` contains a placeholder.
fn has_placeholder(s: &str) -> (found: bool)
    ensures
        found == contains_placeholder(s@),
{
    let chars = chars_of(s);
    let mut i: usize = 0;
    while i < chars.len()
        invariant
            i <= chars@.len(),
            chars@ == s@,
            forall|at: int| at < i ==> !placeholder_at(s@, at),
        decreases chars@.len() - i,
    {
        if is_placeholder_at(chars.as_slice(), i) {
            return true;
        }
        i += 1;
    }
    false
}

/// Whether any argument contains a `{}` placeholder.
pub fn has_placeholders(args: &[String]) -> (found: bool)
    ensures
        found == exists|i: int|
            0 <= i < args@.len() && contains_placeholder(#[trigger] args@[i]@),
{
    let mut i: usize = 0;
    while i < args.len()
        invariant
            i <= args@.len(),
            forall|j: int| 0 <= j < i ==> !contains_placeholder(#[trigger] args@[j]@),
        decreases args@.len() - i,
    {
        if has_placeholder(args[i].as_str()) {
            return true;
        }
        i += 1;
    }
    false
}

// ---------------------------------------------------------------------------
// Replacement values
// ---------------------------------------------------------------------------

/// The characters that a replacement value loses.
pub open spec fn is_stripped(c: char) -> bool {
    c == '\0' || c == '\n' || c == '\r' || c == '"' || c == '\''
}

/// A replacement value as it reaches a command: without NUL bytes, newlines
/// and quotes.
pub open spec fn sanitized(value: Seq<char>) -> Seq<char> {
    value.filter(|c: char| !is_stripped(c))
}

/// Every replacement value as it reaches a command.
pub open spec fn sanitized_all(values: Seq<Seq<char>>) -> Seq<Seq<char>> {
    values.map_values(|value: Seq<char>| sanitized(value))
}

/// Removes invalid and problematic characters from a replacement value.
///
/// This strips NUL bytes (which break OS process spawning) as well as
/// newlines and quotes that might break shell scripts or downstream
/// applications if not handled perfectly.
pub fn sanitize_value(value: &str) -> (clean: String)
    ensures
        clean@ == sanitized(value@),
{
    let chars = chars_of(value);
    let mut clean = String::new();
    let mut i: usize = 0;
    assert(sanitized(chars@.take(0)) =~= Seq::empty()) by {
        reveal(Seq::filter);
    }
    while i < chars.len()
        invariant
            i <= chars@.len(),
            clean@ == sanitized(chars@.take(i as int)),
        decreases chars@.len() - i,
    {
        let c = chars[i];
        proof {
            reveal(Seq::filter);
            assert(chars@.take(i + 1).drop_last() =~= chars@.take(i as int));
        }
        match c {
            '\0' | '\n' | '\r' | '"' | '\'' => {},
            _ => clean.push(c),
        }
        i += 1;
    }
    assert(chars@.take(i as int) =~= value@);
    clean
}

/// The complaint that more than `given` values are needed.
pub open spec fn shortage(needed: nat, given: nat) -> Seq<char> {
    "Not enough replacement values: expected at least "@ + decimal(needed) + ", got "@ + decimal(
        given,
    )
}

/// The complaint that fewer than `given` values are needed.
pub open spec fn surplus(given: nat, found: nat) -> Seq<char> {
    decimal(given) + " replacement value(s) provided but only "@ + decimal(found)
        + " placeholder(s) found"@
}

/// The error for a placeholder without a value.
fn shortage_error(used: usize, given: usize) -> (error: BaanError)
    ensures
        error matches BaanError::Command { detail } && detail@ == shortage(
            (used + 1) as nat,
            given as nat,
        ),
{
    let mut detail = "Not enough replacement values: expected at least ".to_owned();
    detail.append(decimal_text(used as u128 + 1).as_str());
    detail.append(", got ");
    detail.append(decimal_text(given as u128).as_str());
    BaanError::Command { detail }
}

/// The error for a value without a placeholder.
fn surplus_error(given: usize, found: usize) -> (error: BaanError)
    ensures
        error matches BaanError::Command { detail } && detail@ == surplus(
            given as nat,
            found as nat,
        ),
{
    let mut detail = decimal_text(given as u128);
    detail.append(" replacement value(s) provided but only ");
    detail.append(decimal_text(found as u128).as_str());
    detail.append(" placeholder(s) found");
    BaanError::Command { detail }
}

// ---------------------------------------------------------------------------
// Shell scripts
// ---------------------------------------------------------------------------

/// Tracks which shell quoting context the scanner is currently inside.
#[derive(Clone, Copy, PartialEq, Eq, Structural)]
pub enum QuoteState {
    Unquoted,
    Single,
    Double,
}

/// The quoting context after one character that is not escaped.
pub open spec fn quote_after(quote: QuoteState, c: char) -> QuoteState {
    match quote {
        QuoteState::Single => if c == '\'' {
            QuoteState::Unquoted
        } else {
            QuoteState::Single
        },
        QuoteState::Double => if c == '"' {
            QuoteState::Unquoted
        } else {
            QuoteState::Double
        },
        QuoteState::Unquoted => if c == '\'' {
            QuoteState::Single
        } else if c == '"' {
            QuoteState::Double
        } else {
            QuoteState::Unquoted
        },
    }
}

/// Whether the character at `at` escapes the one after it.
pub open spec fn escape_at(s: Seq<char>, at: int, quote: QuoteState) -> bool {
    quote != QuoteState::Single && at + 1 < s.len() && s[at] == '\\'
}

/// Positional parameter `n` as a shell reads it: `$n`, or `${n}` where `n` has
/// more than one digit, since `$10` is `$1` followed by a zero.
pub open spec fn parameter(n: nat) -> Seq<char> {
    if n < 10 {
        "$"@ + decimal(n)
    } else {
        "${"@ + decimal(n) + "}"@
    }
}

/// A reference to positional parameter `n`, written so that it expands as one
/// word in the given quoting context and leaves that context as it was.
pub open spec fn reference(quote: QuoteState, n: nat) -> Seq<char> {
    match quote {
        QuoteState::Single => "'\""@ + parameter(n) + "\"'"@,
        QuoteState::Double => parameter(n),
        QuoteState::Unquoted => "\""@ + parameter(n) + "\""@,
    }
}

/// How many placeholders the script holds from position `at` on. An escaped
/// brace opens none.
pub open spec fn script_placeholders(s: Seq<char>, at: int, quote: QuoteState) -> nat
    decreases s.len() - at,
{
    if at >= s.len() {
        0
    } else if placeholder_at(s, at) {
        1 + script_placeholders(s, at + 2, quote)
    } else if escape_at(s, at, quote) {
        script_placeholders(s, at + 2, quote)
    } else {
        script_placeholders(s, at + 1, quote_after(quote, s[at]))
    }
}

/// The script from position `at` on, with references in place of its
/// placeholders; `n` references stand before it.
pub open spec fn rewritten(s: Seq<char>, at: int, quote: QuoteState, n: nat) -> Seq<char>
    decreases s.len() - at,
{
    if at >= s.len() {
        Seq::empty()
    } else if placeholder_at(s, at) {
        reference(quote, n + 1) + rewritten(s, at + 2, quote, n + 1)
    } else if escape_at(s, at, quote) {
        seq![s[at], s[at + 1]] + rewritten(s, at + 2, quote, n)
    } else {
        seq![s[at]] + rewritten(s, at + 1, quote_after(quote, s[at]), n)
    }
}

/// Writes positional parameter `n` as a shell reads it.
fn write_parameter(out: &mut String, n: usize)
    ensures
        final(out)@ == old(out)@ + parameter(n as nat),
{
    if n < 10 {
        out.append("$");
        out.append(decimal_text(n as u128).as_str());
    } else {
        out.append("${");
        out.append(decimal_text(n as u128).as_str());
        out.append("}");
    }
}

/// Writes a reference to positional parameter `n`.
fn write_reference(out: &mut String, quote: QuoteState, n: usize)
    ensures
        final(out)@ == old(out)@ + reference(quote, n as nat),
{
    match quote {
        // Close the currently-open single quote, insert a safely double-quoted
        // expansion, then reopen a single quote to continue the literal text.
        QuoteState::Single => {
            out.append("'\"");
            write_parameter(out, n);
            out.append("\"'");
        },
        // Already inside double quotes: $N expands here without any further
        // quoting gymnastics needed.
        QuoteState::Double => {
            write_parameter(out, n);
        },
        // Bare: wrap the reference in double quotes so the value can't be
        // word-split or glob-expanded.
        QuoteState::Unquoted => {
            out.append("\"");
            write_parameter(out, n);
            out.append("\"");
        },
    }
}

/// The quoting context after one character that is not escaped.
fn next_quote(quote: QuoteState, c: char) -> (next: QuoteState)
    ensures
        next == quote_after(quote, c),
{
    match quote {
        QuoteState::Single => if c == '\'' {
            QuoteState::Unquoted
        } else {
            QuoteState::Single
        },
        QuoteState::Double => if c == '"' {
            QuoteState::Unquoted
        } else {
            QuoteState::Double
        },
        QuoteState::Unquoted => if c == '\'' {
            QuoteState::Single
        } else if c == '"' {
            QuoteState::Double
        } else {
            QuoteState::Unquoted
        },
    }
}

/// What rewriting a script gives: the script with its references, their values
/// and how many values are used then.
pub struct Substitution {
    pub text: Seq<char>,
    pub values: Seq<Seq<char>>,
    pub used: int,
}

/// The script with references in place of its placeholders and the values from
/// `used` on that they refer to, or the complaint that the values run out.
pub open spec fn substitution(
    script: Seq<char>,
    given: Seq<Seq<char>>,
    used: int,
) -> std::result::Result<Substitution, Seq<char>> {
    let count = script_placeholders(script, 0, QuoteState::Unquoted);
    if count == 0 || used + count <= given.len() {
        Ok(
            Substitution {
                text: rewritten(script, 0, QuoteState::Unquoted, 0),
                values: sanitized_all(Seq::new(count, |i: int| given[used + i])),
                used: used + count,
            },
        )
    } else {
        Err(shortage((used_up(given, used) + 1) as nat, given.len()))
    }
}

/// How many values are used when they run out.
pub open spec fn used_up(given: Seq<Seq<char>>, used: int) -> int {
    if used < given.len() {
        given.len() as int
    } else {
        used
    }
}

/// Rewrite every `{}` in a shell `-c` script argument into a positional
/// parameter reference (`$1`, `$2`, ...), tracking quote state so the
/// reference is always inserted somewhere it will actually expand.
///
/// Takes the next values from `value_options`, starting at `used`, and hands
/// them back sanitized, in the order of the references.
pub fn substitute_shell_placeholders(
    script: &str,
    value_options: &[&str],
    used: &mut usize,
) -> (result: Result<(String, Vec<String>)>)
    ensures
        match substitution(script@, strs_view(value_options@), *old(used) as int) {
            Ok(done) => {
                &&& result matches Ok((text, values))
                &&& text@ == done.text
                &&& texts_view(values@) == done.values
                &&& *final(used) == done.used
            },
            Err(complaint) => {
                &&& result matches Err(BaanError::Command { detail })
                &&& detail@ == complaint
                &&& *final(used) == used_up(strs_view(value_options@), *old(used) as int)
            },
        },
{
    let chars = chars_of(script);
    let mut quote = QuoteState::Unquoted;
    let mut out = String::new();
    let mut values: Vec<String> = Vec::new();
    let mut i: usize = 0;
    let ghost s = chars@;
    let ghost start = *old(used);
    let ghost given = strs_view(value_options@);
    let ghost whole = rewritten(s, 0, QuoteState::Unquoted, 0);
    let ghost count = script_placeholders(s, 0, QuoteState::Unquoted);
    assert(out@ + whole =~= whole);
    assert(texts_view(values@) =~= sanitized_all(Seq::new(0, |k: int| given[start + k])));
    while i < chars.len()
        invariant
            i <= chars@.len(),
            s == script@,
            s == chars@,
            given == strs_view(value_options@),
            start == *old(used),
            count == script_placeholders(s, 0, QuoteState::Unquoted),
            start + values@.len() == *used,
            values@.len() == 0 || *used <= given.len(),
            texts_view(values@) == sanitized_all(
                Seq::new(values@.len(), |k: int| given[start + k]),
            ),
            out@ + rewritten(s, i as int, quote, values@.len()) == whole,
            values@.len() + script_placeholders(s, i as int, quote) == count,
        decreases chars@.len() - i,
    {
        let c = chars[i];
        let ghost before = out@;
        if is_placeholder_at(chars.as_slice(), i) {
            if *used >= value_options.len() {
                return Err(shortage_error(*used, value_options.len()));
            }
            let value = sanitize_value(value_options[*used]);
            let ghost kept = texts_view(values@);
            values.push(value);
            *used = *used + 1;
            write_reference(&mut out, quote, values.len());
            proof {
                let tail = rewritten(s, i + 2, quote, values@.len());
                let head = reference(quote, values@.len());
                assert((before + head) + tail =~= before + (head + tail));
                assert(given[*used - 1] == value_options@[*used - 1]@);
                assert(texts_view(values@) =~= kept.push(value@));
                assert(sanitized_all(Seq::new(values@.len(), |k: int| given[start + k]))
                    =~= kept.push(sanitized(given[*used - 1])));
            }
            i += 2;
        } else if c == '\\' && quote != QuoteState::Single && chars.len() - i > 1 {
            out.push(c);
            out.push(chars[i + 1]);
            proof {
                let tail = rewritten(s, i + 2, quote, values@.len());
                assert(out@ + tail =~= before + (seq![s[i as int], s[i + 1]] + tail));
            }
            i += 2;
        } else {
            let next = next_quote(quote, c);
            out.push(c);
            proof {
                let tail = rewritten(s, i + 1, next, values@.len());
                assert(out@ + tail =~= before + (seq![s[i as int]] + tail));
            }
            quote = next;
            i += 1;
        }
    }
    assert(out@ =~= whole);
    Ok((out, values))
}

// ---------------------------------------------------------------------------
// Plain arguments
// ---------------------------------------------------------------------------

/// How many placeholders a plain argument holds from position `at` on.
pub open spec fn plain_placeholders(s: Seq<char>, at: int) -> nat
    decreases s.len() - at,
{
    if at >= s.len() {
        0
    } else if placeholder_at(s, at) {
        1 + plain_placeholders(s, at + 2)
    } else {
        plain_placeholders(s, at + 1)
    }
}

/// A plain argument from position `at` on, with the given values, sanitized,
/// in place of its placeholders.
pub open spec fn filled(s: Seq<char>, at: int, values: Seq<Seq<char>>) -> Seq<char>
    decreases s.len() - at,
{
    if at >= s.len() {
        Seq::empty()
    } else if placeholder_at(s, at) {
        sanitized(values.first()) + filled(s, at + 2, values.skip(1))
    } else {
        seq![s[at]] + filled(s, at + 1, values)
    }
}

/// Fills the placeholders of a plain argument with the next values, starting
/// at `used`.
fn fill_argument(arg: &str, value_options: &[&str], used: &mut usize) -> (result: Result<String>)
    requires
        *old(used) <= value_options@.len(),
    ensures
        ({
            let count = plain_placeholders(arg@, 0);
            let given = strs_view(value_options@);
            if *old(used) + count <= given.len() {
                &&& result matches Ok(text)
                &&& text@ == filled(arg@, 0, given.skip(*old(used) as int))
                &&& *final(used) == *old(used) + count
            } else {
                &&& result matches Err(BaanError::Command { detail })
                &&& detail@ == shortage(given.len() + 1, given.len())
            }
        }),
{
    let chars = chars_of(arg);
    let mut out = String::new();
    let mut i: usize = 0;
    let ghost s = chars@;
    let ghost start = *old(used);
    let ghost given = strs_view(value_options@);
    let ghost whole = filled(s, 0, given.skip(start as int));
    let ghost count = plain_placeholders(s, 0);
    assert(out@ + whole =~= whole);
    while i < chars.len()
        invariant
            i <= chars@.len(),
            s == arg@,
            s == chars@,
            given == strs_view(value_options@),
            start == *old(used),
            count == plain_placeholders(s, 0),
            start <= *used <= given.len(),
            out@ + filled(s, i as int, given.skip(*used as int)) == whole,
            *used + plain_placeholders(s, i as int) == start + count,
        decreases chars@.len() - i,
    {
        let ghost before = out@;
        let ghost next = given.skip(*used as int);
        if is_placeholder_at(chars.as_slice(), i) {
            if *used >= value_options.len() {
                return Err(shortage_error(*used, value_options.len()));
            }
            let value = sanitize_value(value_options[*used]);
            *used = *used + 1;
            out.append(value.as_str());
            proof {
                assert(next.first() == value_options@[*used - 1]@);
                assert(next.skip(1) =~= given.skip(*used as int));
                let tail = filled(s, i + 2, next.skip(1));
                assert(out@ + tail =~= before + (value@ + tail));
            }
            i += 2;
        } else {
            out.push(chars[i]);
            proof {
                let tail = filled(s, i + 1, next);
                assert(out@ + tail =~= before + (seq![s[i as int]] + tail));
            }
            i += 1;
        }
    }
    assert(out@ =~= whole);
    Ok(out)
}

// ---------------------------------------------------------------------------
// Whole commands
// ---------------------------------------------------------------------------

/// Where the shell script stands among the options, if the command is a shell.
pub open spec fn script_of(command: Seq<char>, options: Seq<Seq<char>>) -> Option<int> {
    if is_shell(command) {
        script_position(options)
    } else {
        None
    }
}

/// How many placeholders option `i` holds.
pub open spec fn option_placeholders(
    options: Seq<Seq<char>>,
    script: Option<int>,
    i: int,
) -> nat {
    if script == Some(i) {
        script_placeholders(options[i], 0, QuoteState::Unquoted)
    } else {
        plain_placeholders(options[i], 0)
    }
}

/// How many placeholders the first `n` options hold.
pub open spec fn placeholders_before(
    options: Seq<Seq<char>>,
    script: Option<int>,
    n: int,
) -> nat
    decreases n,
{
    if n <= 0 {
        0
    } else {
        placeholders_before(options, script, n - 1) + option_placeholders(options, script, n - 1)
    }
}

/// Option `i` with its placeholders replaced.
pub open spec fn expanded_option(
    options: Seq<Seq<char>>,
    script: Option<int>,
    values: Seq<Seq<char>>,
    i: int,
) -> Seq<char> {
    if script == Some(i) {
        rewritten(options[i], 0, QuoteState::Unquoted, 0)
    } else {
        filled(options[i], 0, values.skip(placeholders_before(options, script, i) as int))
    }
}

/// The command and its options with the placeholders replaced.
pub open spec fn expanded_line(
    command: Seq<char>,
    options: Seq<Seq<char>>,
    values: Seq<Seq<char>>,
) -> Seq<Seq<char>> {
    let script = script_of(command, options);
    seq![command] + Seq::new(
        options.len(),
        |i: int| expanded_option(options, script, values, i),
    )
}

/// The values that the script's references refer to: those of its own
/// placeholders.
pub open spec fn script_values(
    options: Seq<Seq<char>>,
    script: Option<int>,
    values: Seq<Seq<char>>,
    at: int,
) -> Seq<Seq<char>> {
    sanitized_all(
        values.subrange(
            placeholders_before(options, script, at) as int,
            placeholders_before(options, script, at + 1) as int,
        ),
    )
}

/// The command line: the command and its options and, where the script has
/// placeholders, their values directly behind the script's `$0`, so that the
/// `k`-th of them is positional parameter `k`. The option behind the script is
/// its `$0`; where there is none the name `baan` is given.
pub open spec fn assembled(
    command: Seq<char>,
    options: Seq<Seq<char>>,
    values: Seq<Seq<char>>,
) -> Seq<Seq<char>> {
    let script = script_of(command, options);
    let line = expanded_line(command, options, values);
    match script {
        Some(at) => if at < options.len() && option_placeholders(options, script, at) > 0 {
            let own = script_values(options, script, values, at);
            if at + 1 == options.len() {
                line + seq!["baan"@] + own
            } else {
                line.take(at + 3) + own + line.skip(at + 3)
            }
        } else {
            line
        },
        None => line,
    }
}

/// How many values the command takes.
pub open spec fn values_needed(command: Seq<char>, options: Seq<Seq<char>>) -> nat {
    placeholders_before(options, script_of(command, options), options.len() as int)
}

/// The whole command line, or the complaint about the number of values.
pub open spec fn expansion(
    command: Seq<char>,
    options: Seq<Seq<char>>,
    values: Seq<Seq<char>>,
) -> std::result::Result<Seq<Seq<char>>, Seq<char>> {
    let needed = values_needed(command, options);
    if needed > values.len() {
        Err(shortage(values.len() + 1, values.len()))
    } else if needed < values.len() {
        Err(surplus(values.len(), needed))
    } else {
        Ok(assembled(command, options, values))
    }
}

/// A sum of placeholders grows with the number of options.
proof fn lemma_placeholders_grow(options: Seq<Seq<char>>, script: Option<int>, a: int, b: int)
    requires
        a <= b,
    ensures
        placeholders_before(options, script, a) <= placeholders_before(options, script, b),
    decreases b - a,
{
    if a < b {
        lemma_placeholders_grow(options, script, a, b - 1);
    }
}

/// Replace `{}` in every argument with the next replacement value.
///
/// In the script of a shell a reference to a positional parameter takes the
/// placeholder's place and the value follows as an argument of its own, behind
/// the script's `$0` and before the other arguments.
pub fn expand_placeholders(
    command: &str,
    options: &[String],
    value_options: &[&str],
) -> (result: Result<Vec<String>>)
    ensures
        match expansion(command@, texts_view(options@), strs_view(value_options@)) {
            Ok(line) => result matches Ok(out) && texts_view(out@) == line,
            Err(complaint) => result matches Err(BaanError::Command { detail }) && detail@
                == complaint,
        },
{
    let script_index = if is_shell_command(command) {
        shell_script_index(options)
    } else {
        None
    };
    let ghost texts = texts_view(options@);
    let ghost given = strs_view(value_options@);
    let ghost script = script_of(command@, texts);
    let ghost line = expanded_line(command@, texts, given);
    let mut used: usize = 0;
    let mut out: Vec<String> = Vec::new();
    let mut trailing: Vec<String> = Vec::new();
    out.push(command.to_owned());
    assert(texts_view(out@) =~= line.take(1));
    let mut i: usize = 0;
    while i < options.len()
        invariant
            i <= options@.len(),
            texts == texts_view(options@),
            given == strs_view(value_options@),
            script == script_of(command@, texts),
            line == expanded_line(command@, texts, given),
            match script_index {
                Some(index) => script == Some(index as int),
                None => script is None,
            },
            used == placeholders_before(texts, script, i as int),
            used <= given.len(),
            out@.len() == i + 1,
            texts_view(out@) == line.take(i + 1),
            match script {
                Some(at) if at < i => texts_view(trailing@) == script_values(
                    texts,
                    script,
                    given,
                    at,
                ),
                _ => trailing@.len() == 0,
            },
        decreases options@.len() - i,
    {
        let ghost before = texts_view(out@);
        let arg = options[i].as_str();
        assert(texts[i as int] == arg@);
        proof {
            lemma_placeholders_grow(texts, script, i + 1, texts.len() as int);
        }
        let is_script = match script_index {
            Some(index) => index == i,
            None => false,
        };
        let expanded = if is_script {
            match substitute_shell_placeholders(arg, value_options, &mut used) {
                Ok((text, values)) => {
                    trailing = values;
                    text
                },
                Err(error) => {
                    return Err(error);
                },
            }
        } else {
            match fill_argument(arg, value_options, &mut used) {
                Ok(text) => text,
                Err(error) => {
                    return Err(error);
                },
            }
        };
        assert(expanded@ == line[i + 1]);
        out.push(expanded);
        assert(texts_view(out@) =~= before.push(expanded@));
        assert(line.take(i + 2) =~= line.take(i + 1).push(line[i + 1]));
        i += 1;
    }
    if used != value_options.len() {
        return Err(surplus_error(value_options.len(), used));
    }
    assert(texts_view(out@) =~= line);
    proof {
        match script {
            Some(at) => {
                if at < texts.len() {
                    lemma_placeholders_grow(texts, script, at + 1, texts.len() as int);
                    assert(trailing@.len() == option_placeholders(texts, script, at));
                }
            },
            None => {},
        }
    }
    if trailing.len() > 0 {
        let ghost own = texts_view(trailing@);
        match script_index {
            Some(index) => {
                if options.len() - index == 1 {
                    out.push("baan".to_owned());
                    assert(texts_view(out@) =~= line + seq!["baan"@]);
                    out.append(&mut trailing);
                    assert(texts_view(out@) =~= line + seq!["baan"@] + own);
                } else {
                    assert(out.len() >= index + 3);
                    let mut rest = out.split_off(index + 3);
                    assert(texts_view(out@) =~= line.take(index + 3));
                    assert(texts_view(rest@) =~= line.skip(index + 3));
                    out.append(&mut trailing);
                    assert(texts_view(out@) =~= line.take(index + 3) + own);
                    out.append(&mut rest);
                    assert(texts_view(out@) =~= line.take(index + 3) + own + line.skip(index + 3));
                }
            },
            None => {},
        }
    }
    Ok(out)
}

// ---------------------------------------------------------------------------
// Laws of expansion
// ---------------------------------------------------------------------------

/// A sanitized value holds none of the stripped characters.
pub proof fn law_sanitized_values_are_clean(value: Seq<char>)
    ensures
        forall|i: int| 0 <= i < sanitized(value).len() ==> !is_stripped(#[trigger] sanitized(value)[i]),
    decreases value.len(),
{
    reveal(Seq::filter);
    if value.len() > 0 {
        law_sanitized_values_are_clean(value.drop_last());
        assert(sanitized(value) == if !is_stripped(value.last()) {
            sanitized(value.drop_last()).push(value.last())
        } else {
            sanitized(value.drop_last())
        });
    }
}

/// A value that holds none of the stripped characters stays as it is.
pub proof fn law_clean_values_are_kept(value: Seq<char>)
    requires
        forall|i: int| 0 <= i < value.len() ==> !is_stripped(#[trigger] value[i]),
    ensures
        sanitized(value) == value,
    decreases value.len(),
{
    reveal(Seq::filter);
    if value.len() > 0 {
        law_clean_values_are_kept(value.drop_last());
        assert(value.drop_last().push(value.last()) =~= value);
    }
}

/// Sanitizing twice is sanitizing once.
pub proof fn law_sanitizing_is_idempotent(value: Seq<char>)
    ensures
        sanitized(sanitized(value)) == sanitized(value),
{
    law_sanitized_values_are_clean(value);
    law_clean_values_are_kept(sanitized(value));
}

/// Text without placeholders holds no placeholders and is passed on.
proof fn lemma_plain_text(s: Seq<char>, at: int, quote: QuoteState, n: nat, values: Seq<Seq<char>>)
    requires
        0 <= at <= s.len(),
        !contains_placeholder(s),
    ensures
        script_placeholders(s, at, quote) == 0,
        rewritten(s, at, quote, n) == s.skip(at),
        plain_placeholders(s, at) == 0,
        filled(s, at, values) == s.skip(at),
    decreases s.len() - at,
{
    if at < s.len() {
        assert(!placeholder_at(s, at));
        lemma_plain_text(s, at + 1, quote_after(quote, s[at]), n, values);
        assert(seq![s[at]] + s.skip(at + 1) =~= s.skip(at));
        if escape_at(s, at, quote) {
            lemma_plain_text(s, at + 2, quote, n, values);
            assert(seq![s[at], s[at + 1]] + s.skip(at + 2) =~= s.skip(at));
        }
    } else {
        assert(s.skip(at) =~= Seq::empty());
    }
}

/// No option holds a placeholder.
proof fn lemma_no_placeholders(options: Seq<Seq<char>>, script: Option<int>, n: int)
    requires
        forall|i: int| 0 <= i < options.len() ==> !contains_placeholder(#[trigger] options[i]),
        n <= options.len(),
    ensures
        placeholders_before(options, script, n) == 0,
    decreases n,
{
    if n > 0 {
        lemma_no_placeholders(options, script, n - 1);
        lemma_plain_text(options[n - 1], 0, QuoteState::Unquoted, 0, Seq::empty());
    }
}

/// A command without placeholders takes no values and is passed on as it is.
pub proof fn law_command_without_placeholders_is_unchanged(
    command: Seq<char>,
    options: Seq<Seq<char>>,
)
    requires
        forall|i: int| 0 <= i < options.len() ==> !contains_placeholder(#[trigger] options[i]),
    ensures
        values_needed(command, options) == 0,
        expansion(command, options, Seq::empty()) == Ok::<Seq<Seq<char>>, Seq<char>>(
            seq![command] + options,
        ),
{
    let script = script_of(command, options);
    let none = Seq::<Seq<char>>::empty();
    lemma_no_placeholders(options, script, options.len() as int);
    let line = expanded_line(command, options, none);
    assert forall|i: int| 0 <= i < options.len() implies line[i + 1] == #[trigger] options[i] by {
        lemma_no_placeholders(options, script, i);
        lemma_plain_text(options[i], 0, QuoteState::Unquoted, 0, none.skip(0));
        assert(options[i].skip(0) =~= options[i]);
    }
    assert(line =~= seq![command] + options) by {
        assert forall|j: int| 0 <= j < line.len() implies line[j] == (seq![command]
            + options)[j] by {
            if j > 0 {
                assert(line[j] == options[j - 1]);
            }
        }
    }
    assert(assembled(command, options, none) == line) by {
        match script {
            Some(at) => {
                if at < options.len() {
                    lemma_position_bounds(options, "-c"@, 0);
                    lemma_no_placeholders(options, script, at + 1);
                }
            },
            None => {},
        }
    }
}

/// A command line starts with its command.
pub proof fn law_command_comes_first(
    command: Seq<char>,
    options: Seq<Seq<char>>,
    values: Seq<Seq<char>>,
)
    requires
        expansion(command, options, values) is Ok,
    ensures
        expansion(command, options, values)->Ok_0.len() > options.len(),
        expansion(command, options, values)->Ok_0[0] == command,
{
    lemma_position_bounds(options, "-c"@, 0);
}

/// What a shell runs does not depend on the values: the script, with its
/// references, is the same whichever values are given.
pub proof fn law_script_does_not_depend_on_values(
    command: Seq<char>,
    options: Seq<Seq<char>>,
    first: Seq<Seq<char>>,
    second: Seq<Seq<char>>,
)
    requires
        expansion(command, options, first) is Ok,
        expansion(command, options, second) is Ok,
    ensures
        match script_of(command, options) {
            Some(at) => at < options.len() ==> {
                &&& expansion(command, options, first)->Ok_0[at + 1] == expansion(
                    command,
                    options,
                    second,
                )->Ok_0[at + 1]
            },
            None => true,
        },
{
    match script_of(command, options) {
        Some(at) => {
            if at < options.len() {
                lemma_position_bounds(options, "-c"@, 0);
                assert(expanded_line(command, options, first)[at + 1] == rewritten(
                    options[at],
                    0,
                    QuoteState::Unquoted,
                    0,
                ));
                assert(expanded_line(command, options, second)[at + 1] == rewritten(
                    options[at],
                    0,
                    QuoteState::Unquoted,
                    0,
                ));
            }
        },
        None => {},
    }
}

/// A found position lies inside the sequence.
proof fn lemma_position_bounds(texts: Seq<Seq<char>>, wanted: Seq<char>, from: int)
    requires
        0 <= from,
    ensures
        match position_of(texts, wanted, from) {
            Some(at) => from <= at < texts.len(),
            None => true,
        },
    decreases texts.len() - from,
{
    if from < texts.len() && texts[from] != wanted {
        lemma_position_bounds(texts, wanted, from + 1);
    }
}

/// Positional parameter `k` of a script is the script's `k`-th value, sanitized
/// and as an argument of its own. The argument behind the script is its `$0`:
/// the option that follows it, or `baan` where none does.
pub proof fn law_parameters_are_the_values_in_order(
    command: Seq<char>,
    options: Seq<Seq<char>>,
    values: Seq<Seq<char>>,
    k: int,
)
    requires
        expansion(command, options, values) is Ok,
        script_of(command, options) matches Some(at) && at < options.len() && 1 <= k <= option_placeholders(options, script_of(command, options), at),
    ensures
        ({
            let script = script_of(command, options);
            let at = script->0;
            let line = expansion(command, options, values)->Ok_0;
            let own = placeholders_before(options, script, at) as int;
            &&& at + 2 + k < line.len()
            &&& line[at + 2 + k] == sanitized(values[own + k - 1])
            &&& line[at + 2] == if at + 1 == options.len() {
                "baan"@
            } else {
                expanded_option(options, script, values, at + 1)
            }
        }),
{
    let script = script_of(command, options);
    let at = script->0;
    lemma_position_bounds(options, "-c"@, 0);
    lemma_placeholders_grow(options, script, at + 1, options.len() as int);
    let own = script_values(options, script, values, at);
    let line = expanded_line(command, options, values);
    assert(own[k - 1] == sanitized(values[placeholders_before(options, script, at) + k - 1]));
    if at + 1 == options.len() {
        assert((line + seq!["baan"@] + own)[at + 2 + k] == own[k - 1]);
    } else {
        assert((line.take(at + 3) + own + line.skip(at + 3))[at + 2 + k] == own[k - 1]);
    }
}

/// How a script is rewritten does not depend on what the values are: two lists
/// of the same length, started at the same place, give the same script with as
/// many values and use as many of them, or both fall short.
pub proof fn law_rewriting_does_not_depend_on_values(
    script: Seq<char>,
    first: Seq<Seq<char>>,
    second: Seq<Seq<char>>,
    used: int,
)
    requires
        first.len() == second.len(),
    ensures
        match (substitution(script, first, used), substitution(script, second, used)) {
            (Ok(one), Ok(other)) => {
                &&& one.text == other.text
                &&& one.values.len() == other.values.len()
                &&& one.used == other.used
            },
            (Err(one), Err(other)) => {
                &&& one == other
                &&& used_up(first, used) == used_up(second, used)
            },
            _ => false,
        },
{
}

/// What a shell makes of a piece of script, as far as quotes and backslashes
/// go: its quoting context, and whether the next character is escaped.
pub enum Scan {
    Plain(QuoteState),
    Escaped(QuoteState),
}

/// The scan after one more character.
pub open spec fn scan_after(scan: Scan, c: char) -> Scan {
    match scan {
        Scan::Escaped(quote) => Scan::Plain(quote),
        Scan::Plain(quote) => if quote != QuoteState::Single && c == '\\' {
            Scan::Escaped(quote)
        } else {
            Scan::Plain(quote_after(quote, c))
        },
    }
}

/// The scan of a script read from its start.
pub open spec fn scanned(s: Seq<char>) -> Scan
    decreases s.len(),
{
    if s.len() == 0 {
        Scan::Plain(QuoteState::Unquoted)
    } else {
        scan_after(scanned(s.drop_last()), s.last())
    }
}

/// Whether positional parameter `n` stands at position `at` of a script, where a
/// shell that reads the script from its start is inside double quotes, at its
/// `$` and still behind its end.
#[verifier::opaque]
pub open spec fn expands_at(text: Seq<char>, at: int, n: nat) -> bool {
    let end: int = at + parameter(n).len();
    &&& 0 <= at
    &&& end <= text.len()
    &&& text.subrange(at, end) == parameter(n)
    &&& scanned(text.take(at)) == Scan::Plain(QuoteState::Double)
    &&& scanned(text.take(end)) == Scan::Plain(QuoteState::Double)
}

/// Where the `$` of the `k`-th reference stands in the rewritten script from
/// position `at` on.
pub open spec fn dollar_position(
    s: Seq<char>,
    at: int,
    quote: QuoteState,
    n: nat,
    k: int,
) -> int
    decreases s.len() - at,
{
    if at >= s.len() {
        0
    } else if placeholder_at(s, at) {
        if k <= 1 {
            match quote {
                QuoteState::Single => 2,
                QuoteState::Double => 0,
                QuoteState::Unquoted => 1,
            }
        } else {
            reference(quote, n + 1).len() + dollar_position(s, at + 2, quote, n + 1, k - 1)
        }
    } else if escape_at(s, at, quote) {
        2 + dollar_position(s, at + 2, quote, n, k)
    } else {
        1 + dollar_position(s, at + 1, quote_after(quote, s[at]), n, k)
    }
}

/// One more character moves the scan one step.
proof fn lemma_scan_push(s: Seq<char>, c: char)
    ensures
        scanned(s.push(c)) == scan_after(scanned(s), c),
{
    assert(s.push(c).drop_last() =~= s);
}

/// Digits leave a double-quoted context as it is.
proof fn lemma_scan_digits(prefix: Seq<char>, n: nat)
    requires
        scanned(prefix) == Scan::Plain(QuoteState::Double),
    ensures
        scanned(prefix + decimal(n)) == Scan::Plain(QuoteState::Double),
    decreases n,
{
    if n < 10 {
        assert(prefix + decimal(n) =~= prefix.push(decimal(n).last()));
        lemma_scan_push(prefix, decimal(n).last());
    } else {
        lemma_scan_digits(prefix, n / 10);
        let last = decimal(n).last();
        assert(prefix + decimal(n) =~= (prefix + decimal(n / 10)).push(last));
        lemma_scan_push(prefix + decimal(n / 10), last);
    }
}

/// A parameter leaves a double-quoted context as it is.
proof fn lemma_scan_parameter(prefix: Seq<char>, n: nat)
    requires
        scanned(prefix) == Scan::Plain(QuoteState::Double),
    ensures
        scanned(prefix + parameter(n)) == Scan::Plain(QuoteState::Double),
{
    reveal_strlit("$");
    reveal_strlit("${");
    reveal_strlit("}");
    let a = prefix.push('$');
    lemma_scan_push(prefix, '$');
    if n < 10 {
        lemma_scan_digits(a, n);
        assert(prefix + parameter(n) =~= a + decimal(n));
    } else {
        let b = a.push('{');
        let c = b + decimal(n);
        lemma_scan_push(a, '{');
        lemma_scan_digits(b, n);
        lemma_scan_push(c, '}');
        assert(prefix + parameter(n) =~= c.push('}'));
    }
}

/// A reference written in some context stands in double quotes and leaves the
/// context as it was.
proof fn lemma_scan_reference(prefix: Seq<char>, quote: QuoteState, n: nat)
    requires
        scanned(prefix) == Scan::Plain(quote),
    ensures
        scanned(prefix + reference(quote, n)) == Scan::Plain(quote),
        expands_at(
            prefix + reference(quote, n),
            prefix.len() + match quote {
                QuoteState::Single => 2int,
                QuoteState::Double => 0int,
                QuoteState::Unquoted => 1int,
            },
            n,
        ),
{
    reveal(expands_at);
    reveal_strlit("'\"");
    reveal_strlit("\"'");
    reveal_strlit("\"");
    let text = prefix + reference(quote, n);
    let start = prefix.len() as int;
    let length = parameter(n).len() as int;
    match quote {
        QuoteState::Single => {
            let a = prefix.push('\'');
            let b = a.push('"');
            let c = b + parameter(n);
            let d = c.push('"');
            lemma_scan_push(prefix, '\'');
            lemma_scan_push(a, '"');
            lemma_scan_parameter(b, n);
            lemma_scan_push(c, '"');
            lemma_scan_push(d, '\'');
            assert(text =~= d.push('\''));
            assert(text.take(start + 2) =~= b);
            assert(text.take(start + 2 + length) =~= c);
            assert(text.subrange(start + 2, start + 2 + length) =~= parameter(n));
        },
        QuoteState::Double => {
            lemma_scan_parameter(prefix, n);
            assert(text.take(start) =~= prefix);
            assert(text.take(start + length) =~= text);
            assert(text.subrange(start, start + length) =~= parameter(n));
        },
        QuoteState::Unquoted => {
            let a = prefix.push('"');
            let b = a + parameter(n);
            lemma_scan_push(prefix, '"');
            lemma_scan_parameter(a, n);
            lemma_scan_push(b, '"');
            assert(text =~= b.push('"'));
            assert(text.take(start + 1) =~= a);
            assert(text.take(start + 1 + length) =~= b);
            assert(text.subrange(start + 1, start + 1 + length) =~= parameter(n));
        },
    }
}

/// What follows a reference does not matter to it.
proof fn lemma_expands_before(text: Seq<char>, tail: Seq<char>, at: int, n: nat)
    requires
        expands_at(text, at, n),
    ensures
        expands_at(text + tail, at, n),
{
    reveal(expands_at);
    let end: int = at + parameter(n).len();
    assert((text + tail).take(at) =~= text.take(at));
    assert((text + tail).take(end) =~= text.take(end));
    assert((text + tail).subrange(at, end) =~= text.subrange(at, end));
}

/// The `k`-th reference after a prefix stands in double quotes.
proof fn lemma_scan_rewritten(
    prefix: Seq<char>,
    s: Seq<char>,
    at: int,
    quote: QuoteState,
    n: nat,
    k: int,
)
    requires
        0 <= at,
        scanned(prefix) == Scan::Plain(quote),
        1 <= k <= script_placeholders(s, at, quote),
    ensures
        expands_at(
            prefix + rewritten(s, at, quote, n),
            prefix.len() + dollar_position(s, at, quote, n, k),
            (n + k) as nat,
        ),
    decreases s.len() - at,
{
    let text = prefix + rewritten(s, at, quote, n);
    if placeholder_at(s, at) {
        let tail = rewritten(s, at + 2, quote, n + 1);
        let longer = prefix + reference(quote, n + 1);
        lemma_scan_reference(prefix, quote, n + 1);
        assert(text =~= longer + tail);
        if k == 1 {
            lemma_expands_before(
                longer,
                tail,
                prefix.len() + dollar_position(s, at, quote, n, k),
                n + 1,
            );
        } else {
            lemma_scan_rewritten(longer, s, at + 2, quote, n + 1, k - 1);
        }
    } else if escape_at(s, at, quote) {
        let first = prefix.push(s[at]);
        let longer = first.push(s[at + 1]);
        lemma_scan_push(prefix, s[at]);
        lemma_scan_push(first, s[at + 1]);
        assert(text =~= longer + rewritten(s, at + 2, quote, n));
        lemma_scan_rewritten(longer, s, at + 2, quote, n, k);
    } else {
        let next = quote_after(quote, s[at]);
        let longer = prefix.push(s[at]);
        lemma_scan_push(prefix, s[at]);
        assert(text =~= longer + rewritten(s, at + 1, next, n));
        assert(at + 1 < s.len()) by {
            reveal_with_fuel(script_placeholders, 2);
        }
        assert(scanned(longer) == Scan::Plain(next));
        lemma_scan_rewritten(longer, s, at + 1, next, n, k);
    }
}

/// Every reference in a rewritten script stands where a shell expands it as
/// one word: the `k`-th is positional parameter `k`, written so that a shell
/// reads all its digits, inside double quotes.
pub proof fn law_references_stand_in_double_quotes(script: Seq<char>, k: int)
    requires
        1 <= k <= script_placeholders(script, 0, QuoteState::Unquoted),
    ensures
        expands_at(
            rewritten(script, 0, QuoteState::Unquoted, 0),
            dollar_position(script, 0, QuoteState::Unquoted, 0, k),
            k as nat,
        ),
{
    let text = rewritten(script, 0, QuoteState::Unquoted, 0);
    lemma_scan_rewritten(Seq::empty(), script, 0, QuoteState::Unquoted, 0, k);
    assert(Seq::<char>::empty() + text =~= text);
}

// ---------------------------------------------------------------------------
// Laws of sanitizing
// ---------------------------------------------------------------------------

/// Sanitizing goes character by character.
pub proof fn law_sanitizing_splits(a: Seq<char>, b: Seq<char>)
    ensures
        sanitized(a + b) == sanitized(a) + sanitized(b),
    decreases b.len(),
{
    reveal(Seq::filter);
    if b.len() == 0 {
        assert(a + b =~= a);
        assert(sanitized(a) + sanitized(b) =~= sanitized(a));
    } else {
        law_sanitizing_splits(a, b.drop_last());
        assert((a + b).drop_last() =~= a + b.drop_last());
        assert((a + b).last() == b.last());
        assert(sanitized(a + b) =~= sanitized(a) + sanitized(b));
    }
}

/// A value loses NUL bytes, line ends and quotes, and no other character.
pub proof fn law_what_a_value_loses(c: char)
    ensures
        sanitized(seq![c]) == if c as u32 == 0 || c as u32 == 10 || c as u32 == 13 || c as u32 == 34
            || c as u32 == 39 {
            Seq::empty()
        } else {
            seq![c]
        },
{
    reveal(Seq::filter);
    let one = seq![c];
    assert(one.drop_last() =~= Seq::empty());
    assert(sanitized(one.drop_last()) =~= Seq::empty());
    assert(one.last() == c);
    assert(sanitized(one) =~= if is_stripped(c) {
        Seq::empty()
    } else {
        one
    });
}

// ---------------------------------------------------------------------------
// Laws of filling
// ---------------------------------------------------------------------------

/// `n` placeholders.
pub open spec fn holes(n: int) -> Seq<Seq<char>> {
    Seq::new(n as nat, |i: int| seq!['{', '}'])
}

/// A text in which no `{` stands before a `}`.
pub open spec fn is_solid(s: Seq<char>) -> bool {
    forall|i: int| 0 <= i < s.len() - 1 && #[trigger] s[i] == '{' ==> s[i + 1] != '}'
}

/// Texts none of which holds a placeholder.
pub open spec fn are_solid(texts: Seq<Seq<char>>) -> bool {
    forall|i: int| 0 <= i < texts.len() ==> is_solid(#[trigger] texts[i])
}

/// A solid text stands in `s` at `at`, and the end of `s` or a placeholder
/// behind it.
pub open spec fn solid_at(s: Seq<char>, at: int, text: Seq<char>) -> bool {
    &&& 0 <= at
    &&& at + text.len() <= s.len()
    &&& s.subrange(at, at + text.len()) == text
    &&& is_solid(text)
    &&& at + text.len() < s.len() ==> s[at + text.len()] == '{'
}

/// No placeholder begins inside a solid text.
proof fn lemma_solid(s: Seq<char>, at: int, text: Seq<char>)
    requires
        solid_at(s, at, text),
        text.len() > 0,
    ensures
        !placeholder_at(s, at),
        s[at] == text[0],
        solid_at(s, at + 1, text.skip(1)),
{
    assert(s.subrange(at, at + text.len())[0] == text[0]);
    if text.len() > 1 {
        assert(s.subrange(at, at + text.len())[1] == text[1]);
    }
    let rest = text.skip(1);
    assert forall|i: int| 0 <= i < rest.len() - 1 && #[trigger] rest[i] == '{' implies rest[i + 1]
        != '}' by {
        assert(text[i + 1] == '{');
    }
    assert(s.subrange(at + 1, at + 1 + rest.len()) =~= s.subrange(at, at + text.len()).skip(1));
}

/// A solid text is passed on by filling.
proof fn lemma_filled_solid(s: Seq<char>, at: int, text: Seq<char>, values: Seq<Seq<char>>)
    requires
        solid_at(s, at, text),
    ensures
        filled(s, at, values) == text + filled(s, at + text.len(), values),
        plain_placeholders(s, at) == plain_placeholders(s, at + text.len()),
    decreases text.len(),
{
    if text.len() == 0 {
        assert(text + filled(s, at, values) =~= filled(s, at, values));
    } else {
        lemma_solid(s, at, text);
        lemma_filled_solid(s, at + 1, text.skip(1), values);
        let tail = filled(s, at + text.len(), values);
        assert(seq![s[at]] + (text.skip(1) + tail) =~= text + tail);
    }
}

/// What stands behind the first text and the first placeholder.
proof fn lemma_first_hole(texts: Seq<Seq<char>>, s: Seq<char>, at: int)
    requires
        texts.len() > 0,
        are_solid(texts),
        0 <= at <= s.len(),
        s.skip(at) == interleaved(texts, holes(texts.len() - 1)),
    ensures
        solid_at(s, at, texts.first()),
        texts.len() == 1 ==> at + texts.first().len() == s.len(),
        texts.len() > 1 ==> {
            let behind = at + texts.first().len();
            &&& placeholder_at(s, behind)
            &&& behind + 2 <= s.len()
            &&& s.skip(behind + 2) == interleaved(texts.skip(1), holes(texts.len() - 2))
            &&& are_solid(texts.skip(1))
        },
{
    let gaps = holes(texts.len() - 1);
    let first = texts.first();
    let tail = s.skip(at);
    assert(is_solid(texts[0]));
    assert(tail.len() == s.len() - at);
    assert forall|i: int| 0 <= i < tail.len() implies #[trigger] tail[i] == s[at + i] by {}
    if texts.len() == 1 {
        assert(tail == first);
        assert(s.subrange(at, at + first.len()) =~= tail);
    } else {
        let rest = interleaved(texts.skip(1), gaps.skip(1));
        assert(gaps.skip(1) =~= holes(texts.len() - 2));
        assert(tail == first + seq!['{', '}'] + rest);
        assert(tail.len() == first.len() + 2 + rest.len());
        assert(s.subrange(at, at + first.len()) =~= first) by {
            assert forall|i: int| 0 <= i < first.len() implies s.subrange(
                at,
                at + first.len(),
            )[i] == first[i] by {
                assert(tail[i] == first[i]);
            }
        }
        assert(tail[first.len() as int] == '{' && tail[first.len() as int + 1] == '}');
        assert(s[at + first.len()] == '{' && s[at + first.len() + 1] == '}');
        assert(s.skip(at + first.len() + 2) =~= rest) by {
            assert(tail.skip(first.len() as int + 2) =~= rest);
            assert(s.skip(at + first.len() + 2) =~= tail.skip(first.len() as int + 2));
        }
        assert forall|i: int| 0 <= i < texts.skip(1).len() implies is_solid(
            #[trigger] texts.skip(1)[i],
        ) by {
            assert(is_solid(texts[i + 1]));
        }
    }
}

/// Filling from some position on.
proof fn lemma_filled_from(
    texts: Seq<Seq<char>>,
    s: Seq<char>,
    at: int,
    values: Seq<Seq<char>>,
)
    requires
        texts.len() > 0,
        are_solid(texts),
        0 <= at <= s.len(),
        s.skip(at) == interleaved(texts, holes(texts.len() - 1)),
        values.len() >= texts.len() - 1,
    ensures
        plain_placeholders(s, at) == texts.len() - 1,
        filled(s, at, values) == interleaved(
            texts,
            sanitized_all(values.take(texts.len() - 1)),
        ),
    decreases texts.len(),
{
    lemma_first_hole(texts, s, at);
    let first = texts.first();
    let behind = at + first.len();
    let clean = sanitized_all(values.take(texts.len() - 1));
    lemma_filled_solid(s, at, first, values);
    if texts.len() == 1 {
        assert(filled(s, behind, values) =~= Seq::empty());
        assert(first + Seq::empty() =~= first);
    } else {
        lemma_filled_from(texts.skip(1), s, behind + 2, values.skip(1));
        assert(sanitized_all(values.skip(1).take(texts.len() - 2)) =~= clean.skip(1));
        let rest = interleaved(texts.skip(1), clean.skip(1));
        assert(filled(s, behind, values) == sanitized(values.first()) + rest);
        assert(clean.first() == sanitized(values.first()));
        assert(first + (sanitized(values.first()) + rest) =~= first + clean.first() + rest);
    }
}

/// A plain argument keeps the texts around its placeholders, and between them
/// stand its values, sanitized, in their order.
pub proof fn law_values_stand_between_the_texts(texts: Seq<Seq<char>>, values: Seq<Seq<char>>)
    requires
        texts.len() == values.len() + 1,
        are_solid(texts),
    ensures
        plain_placeholders(interleaved(texts, holes(values.len() as int)), 0) == values.len(),
        filled(interleaved(texts, holes(values.len() as int)), 0, values) == interleaved(
            texts,
            sanitized_all(values),
        ),
{
    let s = interleaved(texts, holes(values.len() as int));
    assert(s.skip(0) =~= s);
    assert(values.take(texts.len() - 1) =~= values);
    lemma_filled_from(texts, s, 0, values);
}

/// The texts around the placeholders from position `at` on.
spec fn texts_around(s: Seq<char>, at: int) -> Seq<Seq<char>>
    decreases s.len() - at,
{
    if at >= s.len() {
        seq![Seq::empty()]
    } else if placeholder_at(s, at) {
        seq![Seq::empty()] + texts_around(s, at + 2)
    } else {
        let rest = texts_around(s, at + 1);
        rest.update(0, seq![s[at]] + rest[0])
    }
}

/// Every text is solid texts with placeholders between them.
proof fn lemma_texts_around(s: Seq<char>, at: int)
    requires
        0 <= at <= s.len(),
    ensures
        texts_around(s, at).len() > 0,
        are_solid(texts_around(s, at)),
        interleaved(texts_around(s, at), holes(texts_around(s, at).len() - 1)) == s.skip(at),
        texts_around(s, at)[0].len() > 0 ==> at < s.len() && texts_around(s, at)[0][0] == s[at],
    decreases s.len() - at,
{
    let texts = texts_around(s, at);
    if at >= s.len() {
        assert(s.skip(at) =~= Seq::empty());
    } else if placeholder_at(s, at) {
        let rest = texts_around(s, at + 2);
        lemma_texts_around(s, at + 2);
        assert(texts.skip(1) =~= rest);
        assert(holes(texts.len() - 1).skip(1) =~= holes(rest.len() - 1));
        assert(s.skip(at) =~= Seq::<char>::empty() + seq!['{', '}'] + s.skip(at + 2));
        assert forall|i: int| 0 <= i < texts.len() implies is_solid(#[trigger] texts[i]) by {
            if i > 0 {
                assert(is_solid(rest[i - 1]));
            }
        }
    } else {
        let rest = texts_around(s, at + 1);
        lemma_texts_around(s, at + 1);
        let gaps = holes(rest.len() - 1);
        assert(texts.skip(1) =~= rest.skip(1));
        assert(s.skip(at) =~= seq![s[at]] + s.skip(at + 1));
        assert(interleaved(texts, gaps) =~= seq![s[at]] + interleaved(rest, gaps));
        assert forall|i: int| 0 <= i < texts.len() implies is_solid(#[trigger] texts[i]) by {
            assert(is_solid(rest[i]));
            if i == 0 {
                let text = texts[0];
                assert forall|k: int| 0 <= k < text.len() - 1 && #[trigger] text[k]
                    == '{' implies text[k + 1] != '}' by {
                    if k > 0 {
                        assert(rest[0][k - 1] == '{');
                    } else {
                        assert(rest[0][0] == s[at + 1]);
                    }
                }
            }
        }
    }
}

/// Every plain argument is texts with placeholders between them, as many as it
/// takes values.
pub proof fn law_arguments_are_texts_and_placeholders(argument: Seq<char>)
    ensures
        exists|texts: Seq<Seq<char>>|
            {
                &&& texts.len() == plain_placeholders(argument, 0) + 1
                &&& #[trigger] are_solid(texts)
                &&& interleaved(texts, holes(texts.len() - 1)) == argument
            },
{
    let texts = texts_around(argument, 0);
    lemma_texts_around(argument, 0);
    assert(argument.skip(0) =~= argument);
    let values = Seq::new((texts.len() - 1) as nat, |i: int| Seq::<char>::empty());
    law_values_stand_between_the_texts(texts, values);
}

/// One value in a plain argument stands, sanitized, where its placeholder
/// stood.
pub proof fn law_one_value_takes_the_place_of_its_placeholder(
    before: Seq<char>,
    value: Seq<char>,
    after: Seq<char>,
)
    requires
        is_solid(before),
        is_solid(after),
    ensures
        filled(before + seq!['{', '}'] + after, 0, seq![value]) == before + sanitized(value)
            + after,
{
    reveal_with_fuel(interleaved, 2);
    let texts = seq![before, after];
    law_values_stand_between_the_texts(texts, seq![value]);
    assert(texts.skip(1).first() == after);
    assert(holes(1).skip(1) =~= Seq::empty());
    assert(interleaved(texts, holes(1)) == before + seq!['{', '}'] + after);
    let clean = sanitized_all(seq![value]);
    assert(clean.skip(1) =~= Seq::empty());
    assert(interleaved(texts, clean) == before + sanitized(value) + after);
}

// ---------------------------------------------------------------------------
// Laws of scripts
// ---------------------------------------------------------------------------

/// The quoting context that a shell is in behind a piece of script.
pub open spec fn context_behind(s: Seq<char>) -> QuoteState {
    match scanned(s) {
        Scan::Plain(quote) => quote,
        Scan::Escaped(quote) => quote,
    }
}

/// Text without quotes and backslashes leaves a context as it is.
proof fn lemma_scan_quiet(prefix: Seq<char>, text: Seq<char>, quote: QuoteState)
    requires
        scanned(prefix) == Scan::Plain(quote),
        quote == QuoteState::Single ==> !text.contains('\''),
        quote == QuoteState::Double ==> !text.contains('"') && !text.contains('\\'),
        quote == QuoteState::Unquoted ==> !text.contains('"') && !text.contains('\'')
            && !text.contains('\\'),
    ensures
        scanned(prefix + text) == Scan::Plain(quote),
    decreases text.len(),
{
    if text.len() == 0 {
        assert(prefix + text =~= prefix);
    } else {
        let rest = text.drop_last();
        assert forall|c: char| rest.contains(c) implies text.contains(c) by {
            let i = choose|i: int| 0 <= i < rest.len() && rest[i] == c;
            assert(text[i] == c);
        }
        assert(text.contains(text.last()));
        lemma_scan_quiet(prefix, rest, quote);
        assert(prefix + text =~= (prefix + rest).push(text.last()));
        lemma_scan_push(prefix + rest, text.last());
    }
}

/// How a shell quotes: between single quotes nothing has a meaning but the next
/// single quote; between double quotes nothing but the next double quote and
/// backslashes; outside quotes, text without quotes and backslashes starts
/// none; and a backslash takes the meaning from the next character, but for
/// between single quotes.
pub proof fn law_shell_quoting(prefix: Seq<char>, text: Seq<char>, c: char)
    ensures
        scanned(Seq::empty()) == Scan::Plain(QuoteState::Unquoted),
        scanned(prefix) == Scan::Plain(QuoteState::Unquoted) && !text.contains('\'') ==> {
            &&& scanned(prefix + seq!['\''] + text) == Scan::Plain(QuoteState::Single)
            &&& scanned(prefix + seq!['\''] + text + seq!['\'']) == Scan::Plain(
                QuoteState::Unquoted,
            )
        },
        scanned(prefix) == Scan::Plain(QuoteState::Unquoted) && !text.contains('"')
            && !text.contains('\\') ==> {
            &&& scanned(prefix + seq!['"'] + text) == Scan::Plain(QuoteState::Double)
            &&& scanned(prefix + seq!['"'] + text + seq!['"']) == Scan::Plain(QuoteState::Unquoted)
        },
        scanned(prefix) == Scan::Plain(QuoteState::Unquoted) && !text.contains('"')
            && !text.contains('\'') && !text.contains('\\') ==> scanned(prefix + text)
            == Scan::Plain(QuoteState::Unquoted),
        scanned(prefix) == Scan::Plain(QuoteState::Unquoted) ==> scanned(prefix + seq!['\\', c])
            == Scan::Plain(QuoteState::Unquoted),
        scanned(prefix) == Scan::Plain(QuoteState::Double) ==> scanned(prefix + seq!['\\', c])
            == Scan::Plain(QuoteState::Double),
{
    if scanned(prefix) == Scan::Plain(QuoteState::Unquoted) {
        if !text.contains('\'') {
            let open = prefix.push('\'');
            lemma_scan_push(prefix, '\'');
            lemma_scan_quiet(open, text, QuoteState::Single);
            lemma_scan_push(open + text, '\'');
            assert(prefix + seq!['\''] + text =~= open + text);
            assert(prefix + seq!['\''] + text + seq!['\''] =~= (open + text).push('\''));
        }
        if !text.contains('"') && !text.contains('\\') {
            let open = prefix.push('"');
            lemma_scan_push(prefix, '"');
            lemma_scan_quiet(open, text, QuoteState::Double);
            lemma_scan_push(open + text, '"');
            assert(prefix + seq!['"'] + text =~= open + text);
            assert(prefix + seq!['"'] + text + seq!['"'] =~= (open + text).push('"'));
            if !text.contains('\'') {
                lemma_scan_quiet(prefix, text, QuoteState::Unquoted);
            }
        }
    }
    lemma_scan_push(prefix, '\\');
    lemma_scan_push(prefix.push('\\'), c);
    assert(prefix + seq!['\\', c] =~= prefix.push('\\').push(c));
}

/// A parameter of one digit is a dollar sign and the digit; one of more stands
/// in braces. Its digits write its number.
pub proof fn law_parameters_write_their_number(n: nat)
    ensures
        n < 10 ==> parameter(n).len() == 2 && parameter(n)[0] == '$' && parameter(n)[1] as int == 48
            + n,
        n >= 10 ==> {
            let last = parameter(n).len() - 1;
            &&& parameter(n).len() > 4
            &&& parameter(n)[0] == '$'
            &&& parameter(n)[1] == '{'
            &&& parameter(n)[last] == '}'
            &&& parameter(n).subrange(2, last) == decimal(n)
            &&& crate::number::digits_value(parameter(n).subrange(2, last)) == n
        },
{
    reveal_strlit("$");
    reveal_strlit("${");
    reveal_strlit("}");
    crate::number::law_decimal_reads_back(n);
    if n >= 10 {
        crate::number::law_decimal_reads_back(n / 10);
        assert(parameter(n).subrange(2, parameter(n).len() - 1) =~= decimal(n));
    }
}

/// A reference is its parameter between double quotes: those it stands in, or
/// its own; between single quotes it ends and begins them again.
pub proof fn law_references_quote_their_parameter(n: nat)
    ensures
        reference(QuoteState::Double, n) == parameter(n),
        reference(QuoteState::Unquoted, n) == seq!['"'] + parameter(n) + seq!['"'],
        reference(QuoteState::Single, n) == seq!['\'', '"'] + parameter(n) + seq!['"', '\''],
{
    reveal_strlit("'\"");
    reveal_strlit("\"'");
    reveal_strlit("\"");
    assert("'\""@ =~= seq!['\'', '"']);
    assert("\"'"@ =~= seq!['"', '\'']);
    assert("\""@ =~= seq!['"']);
}

/// Where placeholder `k` stands among texts.
pub open spec fn hole_position(texts: Seq<Seq<char>>, k: int) -> int
    decreases k,
{
    if k <= 0 {
        texts.first().len() as int
    } else {
        texts.first().len() + 2 + hole_position(texts.skip(1), k - 1)
    }
}

/// The references of a script: that of placeholder `k` is to parameter `k + 1`,
/// in the context that the placeholder stands in.
pub open spec fn references_in(
    script: Seq<char>,
    at: int,
    texts: Seq<Seq<char>>,
    n: nat,
) -> Seq<Seq<char>> {
    Seq::new(
        (texts.len() - 1) as nat,
        |k: int|
            reference(
                context_behind(script.take(at + hole_position(texts, k))),
                (n + k + 1) as nat,
            ),
    )
}

/// Texts without backslashes.
pub open spec fn are_unescaped(texts: Seq<Seq<char>>) -> bool {
    forall|i: int| 0 <= i < texts.len() ==> !(#[trigger] texts[i]).contains('\\')
}

/// A solid text is passed on by rewriting.
proof fn lemma_rewritten_solid(
    s: Seq<char>,
    at: int,
    text: Seq<char>,
    quote: QuoteState,
    n: nat,
)
    requires
        solid_at(s, at, text),
        !text.contains('\\'),
        scanned(s.take(at)) == Scan::Plain(quote),
    ensures
        ({
            let behind = at + text.len();
            let next = context_behind(s.take(behind));
            &&& scanned(s.take(behind)) == Scan::Plain(next)
            &&& rewritten(s, at, quote, n) == text + rewritten(s, behind, next, n)
            &&& script_placeholders(s, at, quote) == script_placeholders(s, behind, next)
        }),
    decreases text.len(),
{
    if text.len() == 0 {
        assert(text + rewritten(s, at, quote, n) =~= rewritten(s, at, quote, n));
    } else {
        lemma_solid(s, at, text);
        let rest = text.skip(1);
        assert(text.contains(text[0]));
        assert(!rest.contains('\\')) by {
            if rest.contains('\\') {
                let i = choose|i: int| 0 <= i < rest.len() && rest[i] == '\\';
                assert(text[i + 1] == '\\');
            }
        }
        let next = quote_after(quote, s[at]);
        assert(s.take(at + 1) =~= s.take(at).push(s[at]));
        lemma_scan_push(s.take(at), s[at]);
        lemma_rewritten_solid(s, at + 1, rest, next, n);
        let behind = at + text.len();
        let tail = rewritten(s, behind, context_behind(s.take(behind)), n);
        assert(seq![s[at]] + (rest + tail) =~= text + tail);
    }
}

/// Rewriting from some position on.
proof fn lemma_rewritten_from(
    texts: Seq<Seq<char>>,
    s: Seq<char>,
    at: int,
    quote: QuoteState,
    n: nat,
)
    requires
        texts.len() > 0,
        are_solid(texts),
        are_unescaped(texts),
        0 <= at <= s.len(),
        s.skip(at) == interleaved(texts, holes(texts.len() - 1)),
        scanned(s.take(at)) == Scan::Plain(quote),
    ensures
        script_placeholders(s, at, quote) == texts.len() - 1,
        rewritten(s, at, quote, n) == interleaved(texts, references_in(s, at, texts, n)),
    decreases texts.len(),
{
    lemma_first_hole(texts, s, at);
    let first = texts.first();
    let behind = at + first.len();
    let refs = references_in(s, at, texts, n);
    assert(!texts[0].contains('\\'));
    lemma_rewritten_solid(s, at, first, quote, n);
    let next = context_behind(s.take(behind));
    if texts.len() == 1 {
        assert(rewritten(s, behind, next, n) =~= Seq::empty());
        assert(first + Seq::empty() =~= first);
    } else {
        assert(s.take(behind + 1) =~= s.take(behind).push('{'));
        assert(s.take(behind + 2) =~= s.take(behind + 1).push('}'));
        lemma_scan_push(s.take(behind), '{');
        lemma_scan_push(s.take(behind + 1), '}');
        let others = texts.skip(1);
        assert forall|i: int| 0 <= i < others.len() implies !(#[trigger] others[i]).contains(
            '\\',
        ) by {
            assert(!texts[i + 1].contains('\\'));
        }
        lemma_rewritten_from(others, s, behind + 2, next, n + 1);
        let later = references_in(s, behind + 2, others, n + 1);
        assert(refs.skip(1) =~= later) by {
            assert forall|k: int| 0 <= k < later.len() implies refs.skip(1)[k] == later[k] by {
                assert(hole_position(texts, k + 1) == first.len() + 2 + hole_position(others, k));
            }
        }
        let rest = interleaved(others, later);
        assert(refs.first() == reference(next, n + 1));
        assert(first + (reference(next, n + 1) + rest) =~= first + refs.first() + rest);
    }
}

/// A script keeps the texts around its placeholders, and between them stand
/// references: the `k`-th to parameter `k`, quoted for the context that its
/// placeholder stands in.
pub proof fn law_references_stand_between_the_texts(texts: Seq<Seq<char>>)
    requires
        texts.len() > 0,
        are_solid(texts),
        are_unescaped(texts),
    ensures
        ({
            let script = interleaved(texts, holes(texts.len() - 1));
            &&& script_placeholders(script, 0, QuoteState::Unquoted) == texts.len() - 1
            &&& rewritten(script, 0, QuoteState::Unquoted, 0) == interleaved(
                texts,
                references_in(script, 0, texts, 0),
            )
        }),
{
    let script = interleaved(texts, holes(texts.len() - 1));
    assert(script.skip(0) =~= script);
    assert(script.take(0) =~= Seq::empty());
    lemma_rewritten_from(texts, script, 0, QuoteState::Unquoted, 0);
}

/// Rewriting depends only on what is left of the script.
proof fn lemma_rewritten_rest(s: Seq<char>, at: int, quote: QuoteState, n: nat)
    requires
        0 <= at <= s.len(),
    ensures
        rewritten(s.skip(at), 0, quote, n) == rewritten(s, at, quote, n),
        script_placeholders(s.skip(at), 0, quote) == script_placeholders(s, at, quote),
{
    lemma_rewritten_shifted(s, at, 0, quote, n);
}

/// Rewriting depends only on what is left of the script, from some position on.
proof fn lemma_rewritten_shifted(s: Seq<char>, from: int, at: int, quote: QuoteState, n: nat)
    requires
        0 <= from <= s.len(),
        0 <= at,
    ensures
        rewritten(s.skip(from), at, quote, n) == rewritten(s, from + at, quote, n),
        script_placeholders(s.skip(from), at, quote) == script_placeholders(s, from + at, quote),
    decreases s.len() - from - at,
{
    let rest = s.skip(from);
    if at < rest.len() {
        assert(rest[at] == s[from + at]);
        if at + 1 < rest.len() {
            assert(rest[at + 1] == s[from + at + 1]);
        }
        if placeholder_at(rest, at) {
            lemma_rewritten_shifted(s, from, at + 2, quote, n + 1);
        } else if escape_at(rest, at, quote) {
            lemma_rewritten_shifted(s, from, at + 2, quote, n);
        } else {
            lemma_rewritten_shifted(s, from, at + 1, quote_after(quote, rest[at]), n);
        }
    }
}

/// A backslash and the character behind it are passed on together, so a brace
/// behind a backslash opens no placeholder. Between single quotes a backslash
/// is a character like any other.
pub proof fn law_escaped_characters_are_passed_on(
    quote: QuoteState,
    c: char,
    rest: Seq<char>,
    n: nat,
)
    ensures
        quote != QuoteState::Single ==> {
            &&& rewritten(seq!['\\', c] + rest, 0, quote, n) == seq!['\\', c] + rewritten(
                rest,
                0,
                quote,
                n,
            )
            &&& script_placeholders(seq!['\\', c] + rest, 0, quote) == script_placeholders(
                rest,
                0,
                quote,
            )
        },
        quote == QuoteState::Single ==> {
            &&& rewritten(seq!['\\'] + rest, 0, quote, n) == seq!['\\'] + rewritten(
                rest,
                0,
                quote,
                n,
            )
            &&& script_placeholders(seq!['\\'] + rest, 0, quote) == script_placeholders(
                rest,
                0,
                quote,
            )
        },
{
    let pair = seq!['\\', c] + rest;
    lemma_rewritten_rest(pair, 2, quote, n);
    assert(pair.skip(2) =~= rest);
    assert(seq![pair[0], pair[1]] =~= seq!['\\', c]);
    let one = seq!['\\'] + rest;
    lemma_rewritten_rest(one, 1, quote, n);
    assert(one.skip(1) =~= rest);
    assert(seq![one[0]] =~= seq!['\\']);
}

// ---------------------------------------------------------------------------
// Laws of whole commands
// ---------------------------------------------------------------------------

/// A shell is known by the last part of its path: these seven names and no
/// others.
pub proof fn law_shells_are_known_by_name(dir: Seq<char>, name: Seq<char>)
    requires
        name.len() > 0,
        !name.contains('/'),
        name != seq!['.'],
        name != seq!['.', '.'],
    ensures
        ({
            let known = name == "sh"@ || name == "bash"@ || name == "zsh"@ || name == "dash"@ || name
                == "ash"@ || name == "ksh"@ || name == "mksh"@;
            &&& is_shell(name) == known
            &&& is_shell(dir + seq!['/'] + name) == known
        }),
{
    crate::path::law_paths_end_with_their_name(dir, name);
}

/// The script of a shell is the argument behind the first `-c`; without one
/// there is none.
pub proof fn law_scripts_follow_the_first_dash_c(options: Seq<Seq<char>>, at: int)
    ensures
        script_position(options) == Some(at + 1) <==> {
            &&& 0 <= at < options.len()
            &&& options[at] == "-c"@
            &&& forall|i: int| 0 <= i < at ==> #[trigger] options[i] != "-c"@
        },
        script_position(options) is None <==> forall|i: int|
            0 <= i < options.len() ==> #[trigger] options[i] != "-c"@,
{
    lemma_first_position(options, "-c"@, 0);
}

/// A position is the first of those that hold what is wanted.
proof fn lemma_first_position(texts: Seq<Seq<char>>, wanted: Seq<char>, from: int)
    requires
        0 <= from,
    ensures
        match position_of(texts, wanted, from) {
            Some(at) => {
                &&& from <= at < texts.len()
                &&& texts[at] == wanted
                &&& forall|i: int| from <= i < at ==> #[trigger] texts[i] != wanted
            },
            None => forall|i: int| from <= i < texts.len() ==> #[trigger] texts[i] != wanted,
        },
    decreases texts.len() - from,
{
    if from < texts.len() && texts[from] != wanted {
        lemma_first_position(texts, wanted, from + 1);
    }
}

/// The options that texts with placeholders between them are.
pub open spec fn with_holes(texts: Seq<Seq<Seq<char>>>) -> Seq<Seq<char>> {
    Seq::new(texts.len(), |i: int| interleaved(texts[i], holes(texts[i].len() - 1)))
}

/// How many placeholders the first `n` options have.
pub open spec fn holes_before(texts: Seq<Seq<Seq<char>>>, n: int) -> int
    decreases n,
{
    if n <= 0 {
        0
    } else {
        holes_before(texts, n - 1) + texts[n - 1].len() - 1
    }
}

/// The values of option `i`: those behind the values of the options before it.
pub open spec fn values_of(
    texts: Seq<Seq<Seq<char>>>,
    values: Seq<Seq<char>>,
    i: int,
) -> Seq<Seq<char>> {
    sanitized_all(values.subrange(holes_before(texts, i), holes_before(texts, i + 1)))
}

/// Options whose texts hold no placeholders; those of a script no backslashes.
pub open spec fn are_options(texts: Seq<Seq<Seq<char>>>, script: Option<int>) -> bool {
    forall|i: int|
        0 <= i < texts.len() ==> {
            &&& (#[trigger] texts[i]).len() > 0
            &&& are_solid(texts[i])
            &&& script == Some(i) ==> are_unescaped(texts[i])
        }
}

/// The placeholders of options are those between their texts.
proof fn lemma_holes_before(texts: Seq<Seq<Seq<char>>>, script: Option<int>, n: int)
    requires
        are_options(texts, script),
        0 <= n <= texts.len(),
    ensures
        holes_before(texts, n) == placeholders_before(with_holes(texts), script, n),
        n > 0 ==> option_placeholders(with_holes(texts), script, n - 1) == texts[n - 1].len() - 1,
    decreases n,
{
    if n > 0 {
        lemma_holes_before(texts, script, n - 1);
        let parts = texts[n - 1];
        let none = Seq::new((parts.len() - 1) as nat, |i: int| Seq::<char>::empty());
        law_values_stand_between_the_texts(parts, none);
        if script == Some(n - 1) {
            law_references_stand_between_the_texts(parts);
        }
    }
}

/// The number of placeholders never falls.
proof fn lemma_holes_grow(texts: Seq<Seq<Seq<char>>>, a: int, b: int)
    requires
        0 <= a <= b <= texts.len(),
        forall|i: int| 0 <= i < texts.len() ==> (#[trigger] texts[i]).len() > 0,
    ensures
        0 <= holes_before(texts, a) <= holes_before(texts, b),
    decreases b,
{
    if a < b {
        lemma_holes_grow(texts, a, b - 1);
    } else if a > 0 {
        lemma_holes_grow(texts, 0, a - 1);
        lemma_holes_grow(texts, a - 1, b - 1);
    }
}

/// A command takes as many values as its options have placeholders, neither
/// more nor fewer.
pub proof fn law_values_and_placeholders_are_as_many(
    command: Seq<char>,
    texts: Seq<Seq<Seq<char>>>,
    values: Seq<Seq<char>>,
)
    requires
        are_options(texts, script_of(command, with_holes(texts))),
    ensures
        values_needed(command, with_holes(texts)) == holes_before(texts, texts.len() as int),
        expansion(command, with_holes(texts), values) is Ok <==> values.len() == holes_before(
            texts,
            texts.len() as int,
        ),
{
    let script = script_of(command, with_holes(texts));
    lemma_holes_before(texts, script, texts.len() as int);
}

/// A filled command is the command, then its options in their order: each keeps
/// the texts around its placeholders, with its own values, sanitized, between
/// them. In the script of a shell references stand between them instead, and
/// the values follow the script's `$0`.
pub proof fn law_commands_are_filled(
    command: Seq<char>,
    texts: Seq<Seq<Seq<char>>>,
    values: Seq<Seq<char>>,
    i: int,
)
    requires
        are_options(texts, script_of(command, with_holes(texts))),
        values.len() == holes_before(texts, texts.len() as int),
    ensures
        ({
            let options = with_holes(texts);
            let script = script_of(command, options);
            let line = expansion(command, options, values)->Ok_0;
            &&& expansion(command, options, values) is Ok
            &&& line[0] == command
            &&& match script {
                Some(at) if at < texts.len() && texts[at].len() > 1 => {
                    let own = values_of(texts, values, at);
                    &&& line.len() == 1 + texts.len() + own.len() + if at + 1 == texts.len() {
                        1int
                    } else {
                        0
                    }
                    &&& own.len() == texts[at].len() - 1
                    &&& line[at + 1] == interleaved(
                        texts[at],
                        references_in(options[at], 0, texts[at], 0),
                    )
                    &&& at + 1 == texts.len() ==> line[at + 2] == "baan"@
                    &&& line.subrange(at + 3, at + 3 + own.len()) == own
                    &&& 0 <= i < texts.len() && i != at ==> line[if i <= at + 1 {
                        i + 1
                    } else {
                        i + 1 + own.len()
                    }] == interleaved(texts[i], values_of(texts, values, i))
                },
                _ => {
                    &&& line.len() == 1 + texts.len()
                    &&& 0 <= i < texts.len() ==> line[i + 1] == interleaved(
                        texts[i],
                        values_of(texts, values, i),
                    )
                },
            }
        }),
{
    let options = with_holes(texts);
    let script = script_of(command, options);
    let n = texts.len() as int;
    lemma_holes_before(texts, script, n);
    lemma_position_bounds(options, "-c"@, 0);
    let line = expanded_line(command, options, values);
    if 0 <= i < n {
        if script != Some(i) {
            lemma_filled_option(texts, script, values, i);
        }
    }
    if let Some(at) = script {
        if at < n {
            lemma_holes_before(texts, script, at);
            lemma_holes_before(texts, script, at + 1);
            lemma_holes_grow(texts, 0, at);
            lemma_holes_grow(texts, at, at + 1);
            lemma_holes_grow(texts, at + 1, n);
            law_references_stand_between_the_texts(texts[at]);
            let own = script_values(options, script, values, at);
            assert(own == values_of(texts, values, at));
            if texts[at].len() > 1 {
                let all = assembled(command, options, values);
                assert(all.subrange(at + 3, at + 3 + own.len()) =~= own);
            } else {
                let refs = references_in(options[at], 0, texts[at], 0);
                assert(refs =~= values_of(texts, values, at));
            }
        }
    }
}

/// A plain option keeps its texts, with its values between them.
proof fn lemma_filled_option(
    texts: Seq<Seq<Seq<char>>>,
    script: Option<int>,
    values: Seq<Seq<char>>,
    i: int,
)
    requires
        are_options(texts, script),
        values.len() == holes_before(texts, texts.len() as int),
        0 <= i < texts.len(),
        script != Some(i),
    ensures
        expanded_option(with_holes(texts), script, values, i) == interleaved(
            texts[i],
            values_of(texts, values, i),
        ),
{
    let parts = texts[i];
    let s = with_holes(texts)[i];
    lemma_holes_before(texts, script, i);
    lemma_holes_grow(texts, 0, i);
    lemma_holes_grow(texts, i, i + 1);
    lemma_holes_grow(texts, i + 1, texts.len() as int);
    let next = values.skip(holes_before(texts, i));
    assert(s.skip(0) =~= s);
    lemma_filled_from(parts, s, 0, next);
    assert(next.take(parts.len() - 1) =~= values.subrange(
        holes_before(texts, i),
        holes_before(texts, i + 1),
    ));
}

/// One value for one placeholder: in a plain option it stands, sanitized, where
/// the placeholder stood; in the script of a shell a reference stands there and
/// the value follows the script's `$0`.
pub proof fn law_one_placeholder(
    command: Seq<char>,
    before: Seq<char>,
    value: Seq<char>,
    after: Seq<char>,
)
    requires
        is_solid(before),
        is_solid(after),
    ensures
        !is_shell(command) ==> expansion(
            command,
            seq![before + seq!['{', '}'] + after],
            seq![value],
        ) == Ok::<Seq<Seq<char>>, Seq<char>>(seq![command, before + sanitized(value) + after]),
        is_shell(command) && !before.contains('\\') && !after.contains('\\') ==> {
            let line = expansion(
                command,
                seq!["-c"@, before + seq!['{', '}'] + after],
                seq![value],
            );
            &&& line matches Ok(out)
            &&& out.len() == 5
            &&& out[0] == command
            &&& out[1] == "-c"@
            &&& out[2] == before + reference(context_behind(before), 1) + after
            &&& out[3] == "baan"@
            &&& out[4] == sanitized(value)
        },
{
    reveal_with_fuel(interleaved, 2);
    let parts = seq![before, after];
    let filled = before + seq!['{', '}'] + after;
    let values = seq![value];
    assert(holes(1).skip(1) =~= Seq::empty());
    assert(parts.skip(1).first() == after);
    assert(interleaved(parts, holes(1)) == filled);
    if !is_shell(command) {
        reveal_with_fuel(holes_before, 3);
        let texts = seq![parts];
        assert(with_holes(texts) =~= seq![filled]);
        assert(are_solid(parts));
        law_commands_are_filled(command, texts, values, 0);
        let own = values_of(texts, values, 0);
        assert(own =~= seq![sanitized(value)]);
        assert(own.skip(1) =~= Seq::empty());
        assert(interleaved(parts, own) == before + sanitized(value) + after);
        let line = expansion(command, seq![filled], values)->Ok_0;
        assert(line =~= seq![command, before + sanitized(value) + after]);
    } else if !before.contains('\\') && !after.contains('\\') {
        reveal_with_fuel(holes_before, 4);
        reveal_strlit("-c");
        let flag = seq!["-c"@];
        let texts = seq![flag, parts];
        let options = with_holes(texts);
        assert(interleaved(flag, holes(0)) == "-c"@);
        assert(options =~= seq!["-c"@, filled]);
        law_scripts_follow_the_first_dash_c(options, 0);
        assert(script_of(command, options) == Some(1int));
        assert(is_solid("-c"@));
        assert(are_solid(parts));
        assert(are_solid(flag));
        assert(are_unescaped(parts));
        law_commands_are_filled(command, texts, values, 0);
        let refs = references_in(filled, 0, parts, 0);
        assert(filled.take(before.len() as int) =~= before);
        assert(refs =~= seq![reference(context_behind(before), 1)]);
        assert(refs.skip(1) =~= Seq::empty());
        assert(interleaved(parts, refs) == before + refs[0] + after);
        let own = values_of(texts, values, 1);
        assert(own =~= seq![sanitized(value)]);
        let none = values_of(texts, values, 0);
        assert(none =~= Seq::empty());
        let line = expansion(command, options, values)->Ok_0;
        assert(line[4] == line.subrange(4, 5)[0]);
    }
}

/// Substituting takes the next values, sanitized, as many as the script has
/// placeholders, from where it starts; it falls short if and only if there are
/// too few.
pub proof fn law_substitution_takes_the_next_values(
    texts: Seq<Seq<char>>,
    given: Seq<Seq<char>>,
    used: int,
)
    requires
        texts.len() > 0,
        are_solid(texts),
        are_unescaped(texts),
        used >= 0,
    ensures
        ({
            let script = interleaved(texts, holes(texts.len() - 1));
            let count = texts.len() - 1;
            match substitution(script, given, used) {
                Ok(done) => {
                    &&& count == 0 || used + count <= given.len()
                    &&& done.text == interleaved(texts, references_in(script, 0, texts, 0))
                    &&& done.used == used + count
                    &&& done.values.len() == count
                    &&& count > 0 ==> done.values == sanitized_all(
                        given.subrange(used, used + count),
                    )
                },
                Err(_) => count > 0 && used + count > given.len(),
            }
        }),
{
    law_references_stand_between_the_texts(texts);
    let script = interleaved(texts, holes(texts.len() - 1));
    if let Ok(done) = substitution(script, given, used) {
        if texts.len() > 1 {
            assert(done.values =~= sanitized_all(given.subrange(used, used + texts.len() - 1)));
        }
    }
}

/// A text without placeholders and backslashes is passed on by rewriting, and
/// what follows it is rewritten in the context that it leaves.
pub proof fn law_rewriting_goes_on_behind_a_text(
    prefix: Seq<char>,
    quote: QuoteState,
    text: Seq<char>,
    rest: Seq<char>,
    n: nat,
)
    requires
        scanned(prefix) == Scan::Plain(quote),
        is_solid(text),
        !text.contains('\\'),
        !(text.len() > 0 && rest.len() > 0 && text.last() == '{' && rest.first() == '}'),
    ensures
        rewritten(text + rest, 0, quote, n) == text + rewritten(
            rest,
            0,
            context_behind(prefix + text),
            n,
        ),
        scanned(prefix + text) == Scan::Plain(context_behind(prefix + text)),
    decreases text.len(),
{
    let s = text + rest;
    if text.len() == 0 {
        assert(s =~= rest);
        assert(prefix + text =~= prefix);
        assert(text + rewritten(rest, 0, quote, n) =~= rewritten(rest, 0, quote, n));
    } else {
        let c = text[0];
        let others = text.skip(1);
        assert(text.contains(c));
        assert(s[0] == c);
        assert(!placeholder_at(s, 0)) by {
            if c == '{' && s.len() > 1 {
                if text.len() > 1 {
                    assert(s[1] == text[1]);
                } else {
                    assert(s[1] == rest.first());
                }
            }
        }
        assert forall|i: int| 0 <= i < others.len() - 1 && #[trigger] others[i]
            == '{' implies others[i + 1] != '}' by {
            assert(text[i + 1] == '{');
        }
        assert(!others.contains('\\')) by {
            if others.contains('\\') {
                let i = choose|i: int| 0 <= i < others.len() && others[i] == '\\';
                assert(text[i + 1] == '\\');
            }
        }
        let next = quote_after(quote, c);
        lemma_scan_push(prefix, c);
        assert(others.len() > 0 ==> others.last() == text.last());
        law_rewriting_goes_on_behind_a_text(prefix.push(c), next, others, rest, n);
        assert(prefix.push(c) + others =~= prefix + text);
        lemma_rewritten_rest(s, 1, next, n);
        assert(s.skip(1) =~= others + rest);
        let tail = rewritten(rest, 0, context_behind(prefix + text), n);
        assert(seq![c] + (others + tail) =~= text + tail);
    }
}

/// A placeholder becomes a reference to the next parameter, quoted for the
/// context it stands in, and leaves that context.
pub proof fn law_placeholders_become_references(quote: QuoteState, rest: Seq<char>, n: nat)
    ensures
        rewritten(seq!['{', '}'] + rest, 0, quote, n) == reference(quote, n + 1) + rewritten(
            rest,
            0,
            quote,
            n + 1,
        ),
        script_placeholders(seq!['{', '}'] + rest, 0, quote) == 1 + script_placeholders(
            rest,
            0,
            quote,
        ),
{
    let s = seq!['{', '}'] + rest;
    lemma_rewritten_rest(s, 2, quote, n + 1);
    assert(s.skip(2) =~= rest);
}

/// The complaint about too few or too many values says how many were given and
/// how many there should have been.
pub proof fn law_complaints_count_the_values(
    command: Seq<char>,
    options: Seq<Seq<char>>,
    values: Seq<Seq<char>>,
)
    ensures
        values.len() < values_needed(command, options) ==> expansion(command, options, values)
            == Err::<Seq<Seq<char>>, Seq<char>>(
            "Not enough replacement values: expected at least "@ + decimal(values.len() + 1)
                + ", got "@ + decimal(values.len()),
        ),
        values.len() > values_needed(command, options) ==> expansion(command, options, values)
            == Err::<Seq<Seq<char>>, Seq<char>>(
            decimal(values.len()) + " replacement value(s) provided but only "@ + decimal(
                values_needed(command, options),
            ) + " placeholder(s) found"@,
        ),
        values.len() == values_needed(command, options) ==> expansion(
            command,
            options,
            values,
        ) is Ok,
{
}

/// The script in a filled command line is the script of the template with its
/// placeholders rewritten, backslashes and all.
pub proof fn law_the_script_in_the_line_is_rewritten(
    command: Seq<char>,
    options: Seq<Seq<char>>,
    values: Seq<Seq<char>>,
)
    requires
        expansion(command, options, values) is Ok,
        script_of(command, options) matches Some(at) && at < options.len(),
    ensures
        ({
            let at = script_of(command, options)->0;
            let line = expansion(command, options, values)->Ok_0;
            &&& at + 1 < line.len()
            &&& line[at] == options[at - 1]
            &&& line[at + 1] == rewritten(options[at], 0, QuoteState::Unquoted, 0)
        }),
{
    let script = script_of(command, options);
    let at = script->0;
    lemma_first_position(options, "-c"@, 0);
    reveal_strlit("-c");
    let flag = options[at - 1];
    assert forall|i: int| !#[trigger] placeholder_at(flag, i) by {}
    lemma_plain_text(
        flag,
        0,
        QuoteState::Unquoted,
        0,
        values.skip(placeholders_before(options, script, at - 1) as int),
    );
    assert(flag.skip(0) =~= flag);
    assert(expanded_line(command, options, values)[at] == flag);
}

} // verus!
