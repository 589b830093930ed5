//! An in-memory transport for testing code that drives a device: what is
//! visible is set by the test, and every operation is recorded.

use vstd::prelude::*;
use vstd::string::StringExecFns;
use crate::device::error::TransportError;
use crate::device::types::{DeviceSelectorView, Direction, Selector};
use crate::text::{append_chars, decimal, decimal_chars, string_from};
use crate::text_map::{key_position, keys_unique, lemma_insert_then_lookup, TextMap};

verus! {

/// Visibility set per selector key (`text:<text>` or `id:<id>`), and the
/// operations performed so far.
pub struct MockTransport {
    visibility: TextMap<bool>,
    calls: Vec<String>,
}

/// The key a selector is looked up under.
pub open spec fn selector_key_spec(s: DeviceSelectorView) -> Seq<char> {
    match s.text {
        Some(t) => "text:"@ + t,
        None => match s.id {
            Some(id) => "id:"@ + id,
            None => "unknown"@,
        },
    }
}

/// `Display` of a boolean.
pub open spec fn bool_text(b: bool) -> Seq<char> {
    if b {
        "true"@
    } else {
        "false"@
    }
}

/// `Debug` of a direction.
pub open spec fn direction_text(d: Direction) -> Seq<char> {
    match d {
        Direction::Up => "Up"@,
        Direction::Down => "Down"@,
        Direction::Left => "Left"@,
        Direction::Right => "Right"@,
    }
}

impl MockTransport {
    /// The operations recorded so far, in order.
    pub closed spec fn recorded(&self) -> Seq<Seq<char>> {
        self.calls@.map_values(|c: String| c@)
    }

    /// Whether the key was set visible; keys never set are not visible.
    pub closed spec fn visible(&self, key: Seq<char>) -> bool {
        self.visibility.lookup(key) == Some(true)
    }

    pub fn new() -> (r: Self)
        ensures
            r.recorded() == Seq::<Seq<char>>::empty(),
            forall|k: Seq<char>| !r.visible(k),
    {
        let r = MockTransport { visibility: TextMap::new(), calls: Vec::new() };
        assert(r.recorded() =~= Seq::<Seq<char>>::empty());
        r
    }

    /// Marks a selector key visible or not.
    pub fn set_visible(&mut self, key: &str, visible: bool)
        ensures
            final(self).recorded() == old(self).recorded(),
            final(self).visible(key@) == visible,
            forall|k: Seq<char>| k != key@ ==> final(self).visible(k) == old(self).visible(k),
    {
        let ghost before = self.visibility.view();
        self.visibility.insert(string_from(key), visible);
        proof {
            assert forall|k: Seq<char>| k != key@ implies self.visible(k) == old(self).visible(k) by {
                lemma_insert_then_lookup(before, self.visibility.view(), key@, visible, k);
            }
            lemma_insert_then_lookup(before, self.visibility.view(), key@, visible, key@);
        }
    }

    /// The operations recorded so far.
    pub fn calls(&self) -> (r: Vec<String>)
        ensures
            r@.map_values(|c: String| c@) == self.recorded(),
    {
        let mut out: Vec<String> = Vec::new();
        let mut i: usize = 0;
        while i < self.calls.len()
            invariant
                i <= self.calls.len(),
                out@.len() == i,
                forall|k: int| 0 <= k < i ==> #[trigger] out@[k] == self.calls@[k],
            decreases self.calls.len() - i,
        {
            let c = self.calls[i].clone();
            out.push(c);
            i += 1;
        }
        assert(out@ =~= self.calls@);
        out
    }

    /// The key a selector is looked up under.
    pub fn selector_key(s: &Selector) -> (r: String)
        ensures
            r@ == selector_key_spec(s@),
    {
        match &s.text {
            Some(t) => {
                let mut k = string_from("text:");
                k.append(t.as_str());
                k
            },
            None => match &s.id {
                Some(id) => {
                    let mut k = string_from("id:");
                    k.append(id.as_str());
                    k
                },
                None => string_from("unknown"),
            },
        }
    }

    fn record(&mut self, call: String)
        ensures
            final(self).recorded() == old(self).recorded().push(call@),
            final(self).visibility == old(self).visibility,
    {
        self.calls.push(call);
        assert(self.recorded() =~= old(self).recorded().push(call@));
    }

    /// Records `launch_app(<app_id>,<clear_state>)`.
    pub fn launch_app(&mut self, app_id: &str, clear_state: bool) -> (r: Result<(), TransportError>)
        ensures
            r is Ok,
            final(self).recorded() == old(self).recorded().push(
                "launch_app("@ + app_id@ + ","@ + bool_text(clear_state) + ")"@,
            ),
            forall|k: Seq<char>| final(self).visible(k) == old(self).visible(k),
    {
        let mut c = string_from("launch_app(");
        c.append(app_id);
        c.append(",");
        c.append(if clear_state {
            "true"
        } else {
            "false"
        });
        c.append(")");
        self.record(c);
        Ok(())
    }

    /// Whether the selector's key was set visible.
    pub fn is_visible(&self, selector: &Selector) -> (r: Result<bool, TransportError>)
        ensures
            r == Ok::<bool, TransportError>(self.visible(selector_key_spec(selector@))),
    {
        let key = Self::selector_key(selector);
        match self.visibility.get(key.as_str()) {
            Some(v) => Ok(*v),
            None => Ok(false),
        }
    }

    /// Records `tap(<selector key>)`.
    pub fn tap(&mut self, selector: &Selector) -> (r: Result<(), TransportError>)
        ensures
            r is Ok,
            final(self).recorded() == old(self).recorded().push(
                "tap("@ + selector_key_spec(selector@) + ")"@,
            ),
            forall|k: Seq<char>| final(self).visible(k) == old(self).visible(k),
    {
        let mut c = string_from("tap(");
        let key = Self::selector_key(selector);
        c.append(key.as_str());
        c.append(")");
        self.record(c);
        Ok(())
    }

    /// Records `input_text(<text>)`.
    pub fn input_text(&mut self, text: &str) -> (r: Result<(), TransportError>)
        ensures
            r is Ok,
            final(self).recorded() == old(self).recorded().push("input_text("@ + text@ + ")"@),
            forall|k: Seq<char>| final(self).visible(k) == old(self).visible(k),
    {
        let mut c = string_from("input_text(");
        c.append(text);
        c.append(")");
        self.record(c);
        Ok(())
    }

    /// Records `hide_keyboard`.
    pub fn hide_keyboard(&mut self) -> (r: Result<(), TransportError>)
        ensures
            r is Ok,
            final(self).recorded() == old(self).recorded().push("hide_keyboard"@),
            forall|k: Seq<char>| final(self).visible(k) == old(self).visible(k),
    {
        self.record(string_from("hide_keyboard"));
        Ok(())
    }

    /// Records `swipe(<direction>)`.
    pub fn swipe(&mut self, direction: Direction) -> (r: Result<(), TransportError>)
        ensures
            r is Ok,
            final(self).recorded() == old(self).recorded().push(
                "swipe("@ + direction_text(direction) + ")"@,
            ),
            forall|k: Seq<char>| final(self).visible(k) == old(self).visible(k),
    {
        let mut c = string_from("swipe(");
        c.append(
            match direction {
                Direction::Up => "Up",
                Direction::Down => "Down",
                Direction::Left => "Left",
                Direction::Right => "Right",
            },
        );
        c.append(")");
        self.record(c);
        Ok(())
    }

    /// Records `back`.
    pub fn back(&mut self) -> (r: Result<(), TransportError>)
        ensures
            r is Ok,
            final(self).recorded() == old(self).recorded().push("back"@),
            forall|k: Seq<char>| final(self).visible(k) == old(self).visible(k),
    {
        self.record(string_from("back"));
        Ok(())
    }

    /// Records `wait_for_idle(<timeout_ms>)`.
    pub fn wait_for_idle(&mut self, timeout_ms: u64) -> (r: Result<(), TransportError>)
        ensures
            r is Ok,
            final(self).recorded() == old(self).recorded().push(
                "wait_for_idle("@ + decimal(timeout_ms as nat) + ")"@,
            ),
            forall|k: Seq<char>| final(self).visible(k) == old(self).visible(k),
    {
        let mut c = string_from("wait_for_idle(");
        append_chars(&mut c, &decimal_chars(timeout_ms));
        c.append(")");
        self.record(c);
        Ok(())
    }

    /// Records `take_screenshot(<name>)`.
    pub fn take_screenshot(&mut self, name: &str) -> (r: Result<(), TransportError>)
        ensures
            r is Ok,
            final(self).recorded() == old(self).recorded().push(
                "take_screenshot("@ + name@ + ")"@,
            ),
            forall|k: Seq<char>| final(self).visible(k) == old(self).visible(k),
    {
        let mut c = string_from("take_screenshot(");
        c.append(name);
        c.append(")");
        self.record(c);
        Ok(())
    }

    /// Records `view_hierarchy` and reports an empty hierarchy.
    pub fn view_hierarchy(&mut self) -> (r: Result<String, TransportError>)
        ensures
            r matches Ok(h) && h@ == "<hierarchy />"@,
            final(self).recorded() == old(self).recorded().push("view_hierarchy"@),
            forall|k: Seq<char>| final(self).visible(k) == old(self).visible(k),
    {
        self.record(string_from("view_hierarchy"));
        Ok(string_from("<hierarchy />"))
    }

    /// Records `tap_at(<x>,<y>)`.
    pub fn tap_at(&mut self, x: u32, y: u32) -> (r: Result<(), TransportError>)
        ensures
            r is Ok,
            final(self).recorded() == old(self).recorded().push(
                "tap_at("@ + decimal(x as nat) + ","@ + decimal(y as nat) + ")"@,
            ),
            forall|k: Seq<char>| final(self).visible(k) == old(self).visible(k),
    {
        let mut c = string_from("tap_at(");
        append_chars(&mut c, &decimal_chars(x as u64));
        c.append(",");
        append_chars(&mut c, &decimal_chars(y as u64));
        c.append(")");
        self.record(c);
        Ok(())
    }

    /// The app in the foreground: the mock has none.
    pub fn foreground_package(&self) -> (r: Result<Option<String>, TransportError>)
        ensures
            r matches Ok(None),
    {
        Ok(None)
    }
}

impl Default for MockTransport {
    fn default() -> (r: Self)
        ensures
            r.recorded() == Seq::<Seq<char>>::empty(),
            forall|k: Seq<char>| !r.visible(k),
    {
        Self::new()
    }
}

} // verus!
