//! The flow file format: a YAML header document holding `appId`, the
//! separator line `---`, and a YAML document holding the list of commands,
//! each in shorthand (`- tapOn: "Log in"`) or map form. `${NAME}` is
//! replaced by the value of a variable before anything is read.

use vstd::prelude::*;
use vstd::string::StringExecFns;
use crate::model::{
    Command, CommandView, Direction, Flow, FlowView, Selector, SelectorView, DEFAULT_MAX_SWIPES,
    DEFAULT_TIMEOUT_MS,
};
use crate::text::{
    append_chars, chars_of, find_chars, find_from, replace_all, replace_chars, same_text,
    slice_chars, string_from, string_of,
};
use crate::text_map::EnvVars;
use crate::yaml::{
    load_yaml_sequence, load_yaml_value, opt_yaml_bool, opt_yaml_str, opt_yaml_u64, untagged,
    yaml_document, yaml_error_message, yaml_get, yaml_is_null, yaml_sequence_document,
    yaml_sequence_error_message, yaml_str, YamlValue,
};

verus! {

/// Why a flow could not be read.
#[derive(Debug)]
pub enum ParseError {
    /// serde_yaml's message for the document that could not be read.
    YamlError(String),
    MissingAppId,
    InvalidFormat,
    /// The unknown command's name and its position in the list.
    UnknownCommand(String, usize),
    /// The command's name and what is wrong with it.
    InvalidCommandFormat(String, String),
}

pub enum ParseErrorView {
    YamlError(Seq<char>),
    MissingAppId,
    InvalidFormat,
    UnknownCommand(Seq<char>, usize),
    InvalidCommandFormat(Seq<char>, Seq<char>),
}

impl View for ParseError {
    type V = ParseErrorView;

    open spec fn view(&self) -> ParseErrorView {
        match self {
            ParseError::YamlError(m) => ParseErrorView::YamlError(m@),
            ParseError::MissingAppId => ParseErrorView::MissingAppId,
            ParseError::InvalidFormat => ParseErrorView::InvalidFormat,
            ParseError::UnknownCommand(name, position) => ParseErrorView::UnknownCommand(
                name@,
                *position,
            ),
            ParseError::InvalidCommandFormat(name, reason) =>
                ParseErrorView::InvalidCommandFormat(name@, reason@),
        }
    }
}

/// The message of a parse error.
pub open spec fn parse_error_text(e: ParseErrorView) -> Seq<char> {
    match e {
        ParseErrorView::YamlError(yaml) => "YAML parse error: "@ + yaml,
        ParseErrorView::MissingAppId => "Missing required field 'appId' in flow header"@,
        ParseErrorView::InvalidFormat =>
            "Invalid flow format: expected two YAML documents separated by '---'"@,
        ParseErrorView::UnknownCommand(name, position) => "Unknown command '"@ + name
            + "' at position "@ + crate::text::decimal(position as nat),
        ParseErrorView::InvalidCommandFormat(name, reason) => "Invalid command format for '"@
            + name + "': "@ + reason,
    }
}

impl ParseError {
    /// The text shown for this error.
    pub fn message(&self) -> (r: String)
        ensures
            r@ == parse_error_text(self@),
    {
        match self {
            ParseError::YamlError(m) => {
                let mut s = string_from("YAML parse error: ");
                s.append(m.as_str());
                s
            },
            ParseError::MissingAppId => string_from("Missing required field 'appId' in flow header"),
            ParseError::InvalidFormat => string_from(
                "Invalid flow format: expected two YAML documents separated by '---'",
            ),
            ParseError::UnknownCommand(name, position) => {
                let mut s = string_from("Unknown command '");
                s.append(name.as_str());
                s.append("' at position ");
                let digits = crate::text::decimal_chars(*position as u64);
                append_chars(&mut s, &digits);
                s
            },
            ParseError::InvalidCommandFormat(name, reason) => {
                let mut s = string_from("Invalid command format for '");
                s.append(name.as_str());
                s.append("': ");
                s.append(reason.as_str());
                s
            },
        }
    }
}

pub open spec fn invalid(name: Seq<char>, reason: Seq<char>) -> ParseErrorView {
    ParseErrorView::InvalidCommandFormat(name, reason)
}

fn invalid_format(name: &str, reason: &str) -> (r: ParseError)
    ensures
        r@ == invalid(name@, reason@),
{
    ParseError::InvalidCommandFormat(string_from(name), string_from(reason))
}

pub open spec fn command_result_view(r: Result<Command, ParseError>) -> Result<
    CommandView,
    ParseErrorView,
> {
    match r {
        Ok(c) => Ok(c@),
        Err(e) => Err(e@),
    }
}

// ----------------------------------------------------------------------------
// Variables
/// The placeholder of a variable: `${NAME}`.
pub open spec fn placeholder(name: Seq<char>) -> Seq<char> {
    "${"@ + name + "}"@
}

/// The text with the placeholder of each variable replaced by its value,
/// variable by variable in the order given.
pub open spec fn substitute(text: Seq<char>, vars: Seq<(Seq<char>, Seq<char>)>) -> Seq<char>
    decreases vars.len(),
{
    if vars.len() == 0 {
        text
    } else {
        substitute(replace_all(text, placeholder(vars[0].0), vars[0].1), vars.drop_first())
    }
}

/// The variables of an `EnvVars`, names and values taken by their views.
pub open spec fn env_pairs(env: &EnvVars) -> Seq<(Seq<char>, Seq<char>)> {
    env.view().map_values(|e: (Seq<char>, String)| (e.0, e.1@))
}

/// Replaces `${NAME}` by the variable's value, for each variable.
pub fn substitute_env(yaml: &str, env: &EnvVars) -> (r: String)
    ensures
        r@ == substitute(yaml@, env_pairs(env)),
{
    let vars = env.entries();
    let ghost pairs = env_pairs(env);
    assert(pairs.len() == vars@.len());
    let mut text = chars_of(yaml);
    let mut i: usize = 0;
    assert(pairs.subrange(0, pairs.len() as int) =~= pairs);
    while i < vars.len()
        invariant
            i <= vars.len(),
            pairs == env_pairs(env),
            pairs.len() == vars@.len(),
            vars@.map_values(|e: (String, String)| (e.0@, e.1)) == env.view(),
            substitute(yaml@, pairs) == substitute(
                text@,
                pairs.subrange(i as int, pairs.len() as int),
            ),
        decreases vars.len() - i,
    {
        let ghost rest = pairs.subrange(i as int, pairs.len() as int);
        assert(rest[0] == pairs[i as int]);
        assert(pairs[i as int] == (vars@[i as int].0@, vars@[i as int].1@));
        assert(rest.drop_first() =~= pairs.subrange(i + 1, pairs.len() as int));
        let mut pattern = chars_of("${");
        let name = chars_of(vars[i].0.as_str());
        crate::text::append_vec(&mut pattern, &name);
        pattern.push('}');
        let value = chars_of(vars[i].1.as_str());
        proof {
            lemma_close_brace();
            assert(pattern@ =~= placeholder(vars@[i as int].0@));
        }
        text = replace_chars(&text, &pattern, &value);
        i += 1;
    }
    assert(pairs.subrange(pairs.len() as int, pairs.len() as int) =~= Seq::<
        (Seq<char>, Seq<char>),
    >::empty());
    string_of(&text)
}

/// The closing brace of a placeholder is the one character `}`.
proof fn lemma_close_brace()
    ensures
        "}"@ == seq!['}'],
{
    reveal_strlit("}");
}

// ----------------------------------------------------------------------------
// Selectors and commands
/// The selector a command's value describes: a string is a text selector;
/// a map gives `text`, `id` and `index` (default 0, read modulo 2^32).
pub open spec fn selector_spec(v: YamlValue) -> SelectorView {
    match yaml_str(v) {
        Some(t) => SelectorView { text: Some(t), id: None, index: 0 },
        None => SelectorView {
            text: opt_yaml_str(yaml_get(v, "text"@)),
            id: opt_yaml_str(yaml_get(v, "id"@)),
            index: match opt_yaml_u64(yaml_get(v, "index"@)) {
                Some(n) => n as u32,
                None => 0,
            },
        },
    }
}

fn field_text(v: &YamlValue, key: &str) -> (r: Option<String>)
    ensures
        match r {
            Some(s) => opt_yaml_str(yaml_get(*v, key@)) == Some(s@),
            None => opt_yaml_str(yaml_get(*v, key@)) is None,
        },
{
    match v.get(key) {
        Some(x) => match x.as_str() {
            Some(s) => Some(s.clone()),
            None => None,
        },
        None => None,
    }
}

fn field_u64(v: &YamlValue, key: &str) -> (r: Option<u64>)
    ensures
        r == opt_yaml_u64(yaml_get(*v, key@)),
{
    match v.get(key) {
        Some(x) => x.as_u64(),
        None => None,
    }
}

fn field_bool(v: &YamlValue, key: &str) -> (r: Option<bool>)
    ensures
        r == opt_yaml_bool(yaml_get(*v, key@)),
{
    match v.get(key) {
        Some(x) => x.as_bool(),
        None => None,
    }
}

/// Reads a selector.
pub fn parse_selector(value: &YamlValue) -> (r: Result<Selector, ParseError>)
    ensures
        r matches Ok(s) && s@ == selector_spec(*value),
{
    if let Some(text) = value.as_str() {
        return Ok(Selector { text: Some(text.clone()), id: None, index: 0 });
    }
    let text = field_text(value, "text");
    let id = field_text(value, "id");
    let index = match field_u64(value, "index") {
        Some(n) => n as u32,
        None => 0,
    };
    Ok(Selector { text, id, index })
}

pub open spec fn launch_app_spec(v: YamlValue) -> Result<CommandView, ParseErrorView> {
    if yaml_is_null(v) {
        Ok(CommandView::LaunchApp { app_id: None, clear_state: false })
    } else {
        Ok(
            CommandView::LaunchApp {
                app_id: opt_yaml_str(yaml_get(v, "appId"@)),
                clear_state: match opt_yaml_bool(yaml_get(v, "clearState"@)) {
                    Some(b) => b,
                    None => false,
                },
            },
        )
    }
}

/// `launchApp`: no value, or a map with `appId` and `clearState`.
pub fn parse_launch_app(value: &YamlValue) -> (r: Result<Command, ParseError>)
    ensures
        command_result_view(r) == launch_app_spec(*value),
{
    if value.is_null() {
        return Ok(Command::LaunchApp { app_id: None, clear_state: false });
    }
    let app_id = field_text(value, "appId");
    let clear_state = match field_bool(value, "clearState") {
        Some(b) => b,
        None => false,
    };
    Ok(Command::LaunchApp { app_id, clear_state })
}

/// `tapOn`: a selector.
pub fn parse_tap_on(value: &YamlValue) -> (r: Result<Command, ParseError>)
    ensures
        command_result_view(r) == Ok::<CommandView, ParseErrorView>(
            CommandView::TapOn { selector: selector_spec(*value) },
        ),
{
    let selector = parse_selector(value)?;
    Ok(Command::TapOn { selector })
}

pub open spec fn input_text_spec(v: YamlValue) -> Result<CommandView, ParseErrorView> {
    match yaml_str(v) {
        Some(t) => Ok(CommandView::InputText { text: t }),
        None => Err(invalid("inputText"@, "expected string"@)),
    }
}

/// `inputText`: a string.
pub fn parse_input_text(value: &YamlValue) -> (r: Result<Command, ParseError>)
    ensures
        command_result_view(r) == input_text_spec(*value),
{
    match value.as_str() {
        Some(t) => Ok(Command::InputText { text: t.clone() }),
        None => Err(invalid_format("inputText", "expected string")),
    }
}

/// The timeout a value sets, or the flow's default `default_ms`.
pub open spec fn timeout_spec(v: YamlValue, default_ms: u64) -> u64 {
    match opt_yaml_u64(yaml_get(v, "timeout"@)) {
        Some(n) => n,
        None => default_ms,
    }
}

fn timeout_of(value: &YamlValue, default_ms: u64) -> (r: u64)
    ensures
        r == timeout_spec(*value, default_ms),
{
    match field_u64(value, "timeout") {
        Some(n) => n,
        None => default_ms,
    }
}

/// `assertVisible`: a selector, with an optional `timeout`.
pub fn parse_assert_visible(value: &YamlValue, default_ms: u64) -> (r: Result<Command, ParseError>)
    ensures
        command_result_view(r) == Ok::<CommandView, ParseErrorView>(
            CommandView::AssertVisible {
                selector: selector_spec(*value),
                timeout_ms: timeout_spec(*value, default_ms),
            },
        ),
{
    let selector = parse_selector(value)?;
    let timeout_ms = timeout_of(value, default_ms);
    Ok(Command::AssertVisible { selector, timeout_ms })
}

/// `assertNotVisible`: a selector, with an optional `timeout`.
pub fn parse_assert_not_visible(value: &YamlValue, default_ms: u64) -> (r: Result<Command, ParseError>)
    ensures
        command_result_view(r) == Ok::<CommandView, ParseErrorView>(
            CommandView::AssertNotVisible {
                selector: selector_spec(*value),
                timeout_ms: timeout_spec(*value, default_ms),
            },
        ),
{
    let selector = parse_selector(value)?;
    let timeout_ms = timeout_of(value, default_ms);
    Ok(Command::AssertNotVisible { selector, timeout_ms })
}

pub open spec fn scroll_spec(v: YamlValue) -> CommandView {
    CommandView::ScrollUntilVisible {
        selector: match yaml_get(v, "element"@) {
            Some(e) => selector_spec(e),
            None => selector_spec(v),
        },
        max_swipes: match opt_yaml_u64(yaml_get(v, "maxSwipes"@)) {
            Some(n) => n as u32,
            None => DEFAULT_MAX_SWIPES,
        },
    }
}

/// `scrollUntilVisible`: a selector, or a map with `element` and
/// `maxSwipes`.
pub fn parse_scroll_until_visible(value: &YamlValue) -> (r: Result<Command, ParseError>)
    ensures
        command_result_view(r) == Ok::<CommandView, ParseErrorView>(scroll_spec(*value)),
{
    let selector = match value.get("element") {
        Some(element) => parse_selector(element)?,
        None => parse_selector(value)?,
    };
    let max_swipes = match field_u64(value, "maxSwipes") {
        Some(n) => n as u32,
        None => DEFAULT_MAX_SWIPES,
    };
    Ok(Command::ScrollUntilVisible { selector, max_swipes })
}

/// The timeout of `waitForAnimationToEnd`: its own `timeout`, or 10 000 ms.
/// The header's `commandTimeout` is for the element waits only.
pub open spec fn wait_for_animation_spec(v: YamlValue) -> u64 {
    if yaml_is_null(v) {
        DEFAULT_TIMEOUT_MS
    } else {
        timeout_spec(v, DEFAULT_TIMEOUT_MS)
    }
}

/// `waitForAnimationToEnd`: no value, or a map with `timeout`.
pub fn parse_wait_for_animation(value: &YamlValue) -> (r: Result<Command, ParseError>)
    ensures
        command_result_view(r) == Ok::<CommandView, ParseErrorView>(
            CommandView::WaitForAnimationToEnd { timeout_ms: wait_for_animation_spec(*value) },
        ),
{
    let timeout_ms = if value.is_null() {
        DEFAULT_TIMEOUT_MS
    } else {
        timeout_of(value, DEFAULT_TIMEOUT_MS)
    };
    Ok(Command::WaitForAnimationToEnd { timeout_ms })
}

/// The name for what `str::to_lowercase` returns: the Unicode lower-case
/// mapping of the text.
pub uninterp spec fn lowercase_text(s: Seq<char>) -> Seq<char>;

/// `str::to_lowercase`. The contract names the result.
#[verifier::external_body]
fn to_lowercase(s: &str) -> (r: String)
    ensures
        r@ == lowercase_text(s@),
{
    s.to_lowercase()
}

/// The direction a swipe names, in any letter case.
pub open spec fn direction_named(d: Seq<char>) -> Option<Direction> {
    let l = lowercase_text(d);
    if l == "up"@ {
        Some(Direction::Up)
    } else if l == "down"@ {
        Some(Direction::Down)
    } else if l == "left"@ {
        Some(Direction::Left)
    } else if l == "right"@ {
        Some(Direction::Right)
    } else {
        None
    }
}

pub open spec fn swipe_spec(v: YamlValue) -> Result<CommandView, ParseErrorView> {
    let named = match yaml_str(v) {
        Some(d) => Some(d),
        None => opt_yaml_str(yaml_get(v, "direction"@)),
    };
    match named {
        None => Err(invalid("swipe"@, "expected direction"@)),
        Some(d) => match direction_named(d) {
            Some(dir) => Ok(CommandView::Swipe { direction: dir }),
            None => Err(invalid("swipe"@, "unknown direction '"@ + d + "'"@)),
        },
    }
}

/// The four direction names, in any letter case, each give its namesake:
/// a swipe written as a direction, or as a map with `direction`, whose
/// text lower-cases to `up`, `down`, `left` or `right` swipes up, down,
/// left or right; any other text is refused.
pub proof fn lemma_swipe_directions(v: YamlValue, d: Seq<char>)
    requires
        yaml_str(v) == Some(d) || (yaml_str(v) is None && opt_yaml_str(yaml_get(v, "direction"@))
            == Some(d)),
    ensures
        lowercase_text(d) == "up"@ ==> swipe_spec(v) == Ok::<CommandView, ParseErrorView>(
            CommandView::Swipe { direction: Direction::Up },
        ),
        lowercase_text(d) == "down"@ ==> swipe_spec(v) == Ok::<CommandView, ParseErrorView>(
            CommandView::Swipe { direction: Direction::Down },
        ),
        lowercase_text(d) == "left"@ ==> swipe_spec(v) == Ok::<CommandView, ParseErrorView>(
            CommandView::Swipe { direction: Direction::Left },
        ),
        lowercase_text(d) == "right"@ ==> swipe_spec(v) == Ok::<CommandView, ParseErrorView>(
            CommandView::Swipe { direction: Direction::Right },
        ),
        swipe_spec(v) is Ok <==> (lowercase_text(d) == "up"@ || lowercase_text(d) == "down"@
            || lowercase_text(d) == "left"@ || lowercase_text(d) == "right"@),
{
    reveal_strlit("up");
    reveal_strlit("down");
    reveal_strlit("left");
    reveal_strlit("right");
    assert("up"@.len() == 2);
    assert("down"@.len() == 4);
    assert("left"@.len() == 4);
    assert("right"@.len() == 5);
    assert("left"@[0] != "down"@[0]);
    assert("right"@ != "down"@);
    assert("right"@ != "left"@);
}

/// `swipe`: a direction, or a map with `direction`.
pub fn parse_swipe(value: &YamlValue) -> (r: Result<Command, ParseError>)
    ensures
        command_result_view(r) == swipe_spec(*value),
{
    let named: String = match value.as_str() {
        Some(d) => d.clone(),
        None => match field_text(value, "direction") {
            Some(d) => d,
            None => {
                return Err(invalid_format("swipe", "expected direction"));
            },
        },
    };
    let lower = to_lowercase(named.as_str());
    let direction = if same_text(lower.as_str(), "up") {
        Direction::Up
    } else if same_text(lower.as_str(), "down") {
        Direction::Down
    } else if same_text(lower.as_str(), "left") {
        Direction::Left
    } else if same_text(lower.as_str(), "right") {
        Direction::Right
    } else {
        let mut reason = string_from("unknown direction '");
        reason.append(named.as_str());
        reason.append("'");
        return Err(ParseError::InvalidCommandFormat(string_from("swipe"), reason));
    };
    Ok(Command::Swipe { direction })
}

pub open spec fn take_screenshot_spec(v: YamlValue) -> Result<CommandView, ParseErrorView> {
    match yaml_str(v) {
        Some(n) => Ok(CommandView::TakeScreenshot { name: n }),
        None => Err(invalid("takeScreenshot"@, "expected string"@)),
    }
}

/// `takeScreenshot`: a name.
pub fn parse_take_screenshot(value: &YamlValue) -> (r: Result<Command, ParseError>)
    ensures
        command_result_view(r) == take_screenshot_spec(*value),
{
    match value.as_str() {
        Some(n) => Ok(Command::TakeScreenshot { name: n.clone() }),
        None => Err(invalid_format("takeScreenshot", "expected string")),
    }
}

/// The command a named entry describes.
pub open spec fn named_command_spec(name: Seq<char>, v: YamlValue, position: usize, default_ms: u64) -> Result<
    CommandView,
    ParseErrorView,
> {
    if name == "launchApp"@ {
        launch_app_spec(v)
    } else if name == "tapOn"@ {
        Ok(CommandView::TapOn { selector: selector_spec(v) })
    } else if name == "inputText"@ {
        input_text_spec(v)
    } else if name == "assertVisible"@ {
        Ok(CommandView::AssertVisible { selector: selector_spec(v), timeout_ms: timeout_spec(v, default_ms) })
    } else if name == "assertNotVisible"@ {
        Ok(
            CommandView::AssertNotVisible {
                selector: selector_spec(v),
                timeout_ms: timeout_spec(v, default_ms),
            },
        )
    } else if name == "scrollUntilVisible"@ {
        Ok(scroll_spec(v))
    } else if name == "back"@ {
        Ok(CommandView::Back)
    } else if name == "waitForAnimationToEnd"@ {
        Ok(CommandView::WaitForAnimationToEnd { timeout_ms: wait_for_animation_spec(v) })
    } else if name == "swipe"@ {
        swipe_spec(v)
    } else if name == "takeScreenshot"@ {
        take_screenshot_spec(v)
    } else {
        Err(ParseErrorView::UnknownCommand(name, position))
    }
}

/// The command an entry of the command list describes: the bare string
/// `back`, or a map with a single command key.
pub open spec fn command_spec(v: YamlValue, position: usize, default_ms: u64) -> Result<CommandView, ParseErrorView> {
    match yaml_str(v) {
        Some(s) => if s == "back"@ {
            Ok(CommandView::Back)
        } else {
            Err(ParseErrorView::UnknownCommand(s, position))
        },
        None => match untagged(v) {
            YamlValue::Mapping(entries) => if entries@.len() != 1 {
                Err(invalid("unknown"@, "expected single command key"@))
            } else {
                match yaml_str(entries@[0].0) {
                    Some(name) => named_command_spec(name, entries@[0].1, position, default_ms),
                    None => Err(invalid("unknown"@, "command name must be string"@)),
                }
            },
            _ => Err(invalid("unknown"@, "expected mapping"@)),
        },
    }
}

fn dispatch_command(name: &String, value: &YamlValue, position: usize, default_ms: u64) -> (r: Result<
    Command,
    ParseError,
>)
    ensures
        command_result_view(r) == named_command_spec(name@, *value, position, default_ms),
{
    let n = name.as_str();
    if same_text(n, "launchApp") {
        parse_launch_app(value)
    } else if same_text(n, "tapOn") {
        parse_tap_on(value)
    } else if same_text(n, "inputText") {
        parse_input_text(value)
    } else if same_text(n, "assertVisible") {
        parse_assert_visible(value, default_ms)
    } else if same_text(n, "assertNotVisible") {
        parse_assert_not_visible(value, default_ms)
    } else if same_text(n, "scrollUntilVisible") {
        parse_scroll_until_visible(value)
    } else if same_text(n, "back") {
        Ok(Command::Back)
    } else if same_text(n, "waitForAnimationToEnd") {
        parse_wait_for_animation(value)
    } else if same_text(n, "swipe") {
        parse_swipe(value)
    } else if same_text(n, "takeScreenshot") {
        parse_take_screenshot(value)
    } else {
        Err(ParseError::UnknownCommand(name.clone(), position))
    }
}

/// Reads one entry of the command list; `position` is its index there.
pub fn parse_command(value: &YamlValue, position: usize, default_ms: u64) -> (r: Result<Command, ParseError>)
    ensures
        command_result_view(r) == command_spec(*value, position, default_ms),
{
    if let Some(s) = value.as_str() {
        if same_text(s.as_str(), "back") {
            return Ok(Command::Back);
        } else {
            return Err(ParseError::UnknownCommand(s.clone(), position));
        }
    }
    let entries = match value.as_mapping() {
        Some(m) => m,
        None => {
            return Err(invalid_format("unknown", "expected mapping"));
        },
    };
    if entries.len() != 1 {
        return Err(invalid_format("unknown", "expected single command key"));
    }
    let name = match entries[0].0.as_str() {
        Some(n) => n,
        None => {
            return Err(invalid_format("unknown", "command name must be string"));
        },
    };
    dispatch_command(name, &entries[0].1, position, default_ms)
}

/// The commands of the first `n` entries, or the error of the first entry
/// among them that is not a command; `default_ms` is the timeout of the
/// element waits that set none.
pub open spec fn commands_prefix(items: Seq<YamlValue>, n: nat, default_ms: u64) -> Result<
    Seq<CommandView>,
    ParseErrorView,
>
    decreases n,
{
    if n == 0 {
        Ok(Seq::empty())
    } else {
        match commands_prefix(items, (n - 1) as nat, default_ms) {
            Err(e) => Err(e),
            Ok(cs) => match command_spec(items[n - 1], (n - 1) as usize, default_ms) {
                Err(e) => Err(e),
                Ok(c) => Ok(cs.push(c)),
            },
        }
    }
}

proof fn lemma_commands_prefix_err(items: Seq<YamlValue>, n: nat, m: nat, default_ms: u64)
    requires
        n <= m,
        commands_prefix(items, n, default_ms) is Err,
    ensures
        commands_prefix(items, m, default_ms) == commands_prefix(items, n, default_ms),
    decreases m,
{
    if n < m {
        lemma_commands_prefix_err(items, n, (m - 1) as nat, default_ms);
    }
}

pub open spec fn commands_result_view(r: Result<Vec<Command>, ParseError>) -> Result<
    Seq<CommandView>,
    ParseErrorView,
> {
    match r {
        Ok(cs) => Ok(cs@.map_values(|c: Command| c@)),
        Err(e) => Err(e@),
    }
}

/// Reads the command list; the first entry that is not a command decides
/// the error.
pub fn parse_commands(items: &Vec<YamlValue>, default_ms: u64) -> (r: Result<Vec<Command>, ParseError>)
    ensures
        commands_result_view(r) == commands_prefix(items@, items@.len(), default_ms),
{
    let mut commands: Vec<Command> = Vec::new();
    let mut i: usize = 0;
    assert(commands@.map_values(|c: Command| c@) =~= Seq::<CommandView>::empty());
    while i < items.len()
        invariant
            i <= items.len(),
            commands_prefix(items@, i as nat, default_ms) == Ok::<Seq<CommandView>, ParseErrorView>(
                commands@.map_values(|c: Command| c@),
            ),
        decreases items.len() - i,
    {
        match parse_command(&items[i], i, default_ms) {
            Ok(c) => {
                let ghost before = commands@.map_values(|c: Command| c@);
                commands.push(c);
                assert(commands@.map_values(|c: Command| c@) =~= before.push(c@));
            },
            Err(e) => {
                proof {
                    lemma_commands_prefix_err(items@, (i + 1) as nat, items@.len(), default_ms);
                }
                return Err(e);
            },
        }
        i += 1;
    }
    Ok(commands)
}

/// The app id the header declares.
pub open spec fn header_spec(h: YamlValue) -> Result<Seq<char>, ParseErrorView> {
    match opt_yaml_str(yaml_get(h, "appId"@)) {
        Some(a) => Ok(a),
        None => Err(ParseErrorView::MissingAppId),
    }
}

/// The timeout the header sets (`commandTimeout`) for the element waits
/// that set none, or the default of 10 000 ms.
pub open spec fn header_timeout_spec(h: YamlValue) -> u64 {
    match opt_yaml_u64(yaml_get(h, "commandTimeout"@)) {
        Some(n) => n,
        None => DEFAULT_TIMEOUT_MS,
    }
}

/// Reads `commandTimeout` from the header document.
pub fn header_command_timeout(header: &YamlValue) -> (r: u64)
    ensures
        r == header_timeout_spec(*header),
{
    match field_u64(header, "commandTimeout") {
        Some(n) => n,
        None => DEFAULT_TIMEOUT_MS,
    }
}

/// Reads `appId` from the header document.
pub fn header_app_id(header: &YamlValue) -> (r: Result<String, ParseError>)
    ensures
        match r {
            Ok(a) => header_spec(*header) == Ok::<Seq<char>, ParseErrorView>(a@),
            Err(e) => header_spec(*header) == Err::<Seq<char>, ParseErrorView>(e@),
        },
{
    match field_text(header, "appId") {
        Some(a) => Ok(a),
        None => Err(ParseError::MissingAppId),
    }
}

// ----------------------------------------------------------------------------
// Flows
/// The line that separates the header from the commands.
pub open spec fn separator() -> Seq<char> {
    "\n---\n"@
}

/// Where the text splits into header and commands: the separator must
/// occur exactly once (occurrences counted left to right without overlap).
pub open spec fn split_point(text: Seq<char>) -> Option<int> {
    match find_from(text, separator(), 0) {
        Some(i) => if find_from(text, separator(), i + separator().len()) is Some {
            None
        } else {
            Some(i)
        },
        None => None,
    }
}

/// The flow a text describes, its documents read as serde_yaml reads them.
pub open spec fn parse_flow_spec(yaml: Seq<char>, vars: Seq<(Seq<char>, Seq<char>)>) -> Result<
    FlowView,
    ParseErrorView,
> {
    let text = substitute(yaml, vars);
    match split_point(text) {
        None => Err(ParseErrorView::InvalidFormat),
        Some(i) => match yaml_document(text.subrange(0, i)) {
            None => Err(ParseErrorView::YamlError(yaml_error_message(text.subrange(0, i)))),
            Some(h) => match header_spec(h) {
                Err(e) => Err(e),
                Ok(app_id) => match yaml_sequence_document(
                    text.subrange(i + separator().len(), text.len() as int),
                ) {
                    None => Err(
                        ParseErrorView::YamlError(
                            yaml_sequence_error_message(
                                text.subrange(i + separator().len(), text.len() as int),
                            ),
                        ),
                    ),
                    Some(items) => match commands_prefix(items, items.len(), header_timeout_spec(h)) {
                        Err(e) => Err(e),
                        Ok(commands) => Ok(FlowView { app_id, commands }),
                    },
                },
            },
        },
    }
}

pub open spec fn flow_result_view(r: Result<Flow, ParseError>) -> Result<FlowView, ParseErrorView> {
    match r {
        Ok(f) => Ok(f@),
        Err(e) => Err(e@),
    }
}

fn separator_chars() -> (r: Vec<char>)
    ensures
        r@ == separator(),
{
    let r = chars_of("\n---\n");
    r
}

/// Reads a flow: substitutes variables, splits the text at the separator,
/// reads the header's `appId`, then the commands.
pub fn parse_flow(yaml: &str, env: &EnvVars) -> (r: Result<Flow, ParseError>)
    ensures
        flow_result_view(r) == parse_flow_spec(yaml@, env_pairs(env)),
{
    let substituted = substitute_env(yaml, env);
    let text = chars_of(substituted.as_str());
    let sep = separator_chars();
    let i = match find_chars(&text, &sep, 0) {
        Some(i) => i,
        None => {
            return Err(ParseError::InvalidFormat);
        },
    };
    proof {
        crate::text::lemma_find_from_found(text@, sep@, 0);
        assert(crate::text::occurs_at(text@, sep@, i as int));
    }
    assert(i + sep@.len() <= text@.len());
    assert(sep@.len() == sep.len());
    assert(text@.len() == text.len());
    let after = i + sep.len();
    if find_chars(&text, &sep, after).is_some() {
        return Err(ParseError::InvalidFormat);
    }
    let header_text = string_of(&slice_chars(&text, 0, i));
    let body_text = string_of(&slice_chars(&text, after, text.len()));
    let header = match load_yaml_value(header_text.as_str()) {
        Ok(h) => h,
        Err(e) => {
            return Err(ParseError::YamlError(e));
        },
    };
    let app_id = header_app_id(&header)?;
    let items = match load_yaml_sequence(body_text.as_str()) {
        Ok(items) => items,
        Err(e) => {
            return Err(ParseError::YamlError(e));
        },
    };
    let commands = parse_commands(&items, header_command_timeout(&header))?;
    let flow = Flow { app_id, commands };
    assert(flow@.commands =~= commands@.map_values(|c: Command| c@));
    Ok(flow)
}

} // verus!
