use vstd::prelude::*;
use vstd::string::StrSliceExecFns;
use vstd::string::StringExecFns;
use crate::strutil::str_eq;

verus! {

/// The encoded form of a state event: `[` name `](` value `)`.
pub open spec fn event_chars(name: Seq<char>, value: Seq<char>) -> Seq<char> {
    seq!['['] + name + seq![']', '('] + value + seq![')']
}

/// Index of the first `](` pair in `s`, if there is one.
pub open spec fn first_sep(s: Seq<char>) -> Option<int>
    decreases s.len(),
{
    if s.len() < 2 {
        None
    } else if s[0] == ']' && s[1] == '(' {
        Some(0)
    } else {
        match first_sep(s.skip(1)) {
            Some(i) => Some(i + 1),
            None => None,
        }
    }
}

/// `first_sep` finds a `](` pair with no such pair before it, and reports
/// none exactly when the sequence holds no such pair at all.
pub proof fn lemma_first_sep(s: Seq<char>)
    ensures
        (match first_sep(s) {
            Some(i) => 0 <= i < s.len() - 1 && s[i] == ']' && s[i + 1] == '(' && (forall|j: int|
                0 <= j < i ==> !((#[trigger] s[j]) == ']' && s[j + 1] == '(')),
            None => forall|j: int| 0 <= j < s.len() - 1 ==> !((#[trigger] s[j]) == ']' && s[j + 1] == '('),
        }),
    decreases s.len(),
{
    if s.len() < 2 {
    } else if s[0] == ']' && s[1] == '(' {
    } else {
        let rest = s.skip(1);
        lemma_first_sep(rest);
        assert(forall|j: int| 0 <= j < rest.len() ==> rest[j] == s[j + 1]);
        match first_sep(rest) {
            Some(i) => {
                assert(s[i + 1] == rest[i]);
                assert(s[i + 2] == rest[i + 1]);
                assert(forall|j: int|
                    1 <= j < i + 1 ==> (#[trigger] s[j]) == rest[j - 1] && s[j + 1] == rest[j]);
            },
            None => {
                assert(forall|j: int|
                    1 <= j < s.len() - 1 ==> (#[trigger] s[j]) == rest[j - 1] && s[j + 1]
                        == rest[j]);
            },
        }
    }
}

/// A `](` pair at `i` with none before it is the first such pair.
pub proof fn lemma_first_sep_at(s: Seq<char>, i: int)
    requires
        0 <= i < s.len() - 1,
        s[i] == ']',
        s[i + 1] == '(',
        forall|j: int| 0 <= j < i ==> !((#[trigger] s[j]) == ']' && s[j + 1] == '('),
    ensures
        first_sep(s) == Some(i),
    decreases s.len(),
{
    if i == 0 {
    } else {
        let rest = s.skip(1);
        assert(forall|j: int| 0 <= j < rest.len() ==> rest[j] == s[j + 1]);
        assert(forall|j: int| 0 <= j < i - 1 ==> !((#[trigger] rest[j]) == ']' && rest[j + 1] == '('));
        lemma_first_sep_at(rest, i - 1);
    }
}

/// Whether the value region of `s`, after the separator at `i`, is free of
/// any `)` before the closing one.
pub open spec fn value_clean(s: Seq<char>, i: int) -> bool {
    forall|j: int| i + 2 <= j < s.len() - 1 ==> (#[trigger] s[j]) != ')'
}

/// Whether `s` is a well-formed event string: one `[`, a nonempty name up to
/// the first `](`, then a value free of `)`, closed by a final `)`.
pub open spec fn event_parses(s: Seq<char>) -> bool {
    &&& s.len() >= 5
    &&& s[0] == '['
    &&& (match first_sep(s) {
        Some(i) => {
            &&& 2 <= i <= s.len() - 3
            &&& s[s.len() - 1] == ')'
            &&& value_clean(s, i)
        },
        None => false,
    })
}

/// The name and value carried by an event string, or the empty pair when the
/// string is not well-formed and must be ignored.
pub open spec fn event_parse(s: Seq<char>) -> (Seq<char>, Seq<char>) {
    if event_parses(s) {
        let i = first_sep(s)->Some_0;
        (s.subrange(1, i), s.subrange(i + 2, s.len() - 1))
    } else {
        (Seq::<char>::empty(), Seq::<char>::empty())
    }
}

/// Build the encoded event string `[` name `](` value `)`.
pub fn encode_event(name: &str, value: &str) -> (r: String)
    ensures
        r@ == event_chars(name@, value@),
{
    let mut s = String::new();
    s.append("[");
    s.append(name);
    s.append("](");
    s.append(value);
    s.append(")");
    proof {
        reveal_strlit("[");
        reveal_strlit("](");
        reveal_strlit(")");
        assert(s@ =~= event_chars(name@, value@));
    }
    s
}

/// Find the index of the first `](` pair in the string.
fn find_sep(msg: &str) -> (r: Option<usize>)
    ensures
        (match r {
            Some(i) => first_sep(msg@) == Some(i as int),
            None => first_sep(msg@) is None,
        }),
{
    let n = msg.unicode_len();
    if n < 2 {
        proof {
            lemma_first_sep(msg@);
        }
        return None;
    }
    let mut k: usize = 0;
    while k < n - 1
        invariant
            n == msg@.len(),
            2 <= n,
            0 <= k <= n - 1,
            forall|j: int| 0 <= j < k ==> !((#[trigger] msg@[j]) == ']' && msg@[j + 1] == '('),
        decreases n - 1 - k,
    {
        if msg.get_char(k) == ']' && msg.get_char(k + 1) == '(' {
            proof {
                lemma_first_sep_at(msg@, k as int);
            }
            return Some(k);
        }
        k += 1;
    }
    proof {
        lemma_first_sep(msg@);
    }
    None
}

/// Split an event string into its name and value, or into the empty pair
/// when it does not follow the grammar.
pub fn get_state_event_and_value(msg: &str) -> (r: (String, String))
    ensures
        r.0@ == event_parse(msg@).0,
        r.1@ == event_parse(msg@).1,
{
    let n = msg.unicode_len();
    if n < 5 {
        return (String::new(), String::new());
    }
    if msg.get_char(0) != '[' {
        return (String::new(), String::new());
    }
    let sep = find_sep(msg);
    match sep {
        None => (String::new(), String::new()),
        Some(i) => {
            if i < 2 || i > n - 3 {
                return (String::new(), String::new());
            }
            if msg.get_char(n - 1) != ')' {
                return (String::new(), String::new());
            }
            // The value may not hold a `)` of its own.
            let mut j: usize = i + 2;
            while j < n - 1
                invariant
                    n == msg@.len(),
                    5 <= n,
                    2 <= i <= n - 3,
                    i + 2 <= j <= n - 1,
                    first_sep(msg@) == Some(i as int),
                    forall|t: int| i + 2 <= t < j ==> msg@[t] != ')',
                decreases n - 1 - j,
            {
                if msg.get_char(j) == ')' {
                    proof {
                        let t: int = j as int;
                        assert(msg@[t] == ')');
                        assert(i as int + 2 <= t < msg@.len() - 1);
                        assert(!value_clean(msg@, i as int));
                        assert(!event_parses(msg@));
                    }
                    return (String::new(), String::new());
                }
                j += 1;
            }
            let name = msg.substring_char(1, i).to_owned();
            let value = msg.substring_char(i + 2, n - 1).to_owned();
            (name, value)
        },
    }
}

/// Round trip: an encoded event parses back to exactly the name and value it
/// was built from, as long as the name is nonempty and free of `](` and the
/// value holds no `)`.
pub proof fn lemma_event_round_trip(name: Seq<char>, value: Seq<char>)
    requires
        name.len() >= 1,
        forall|j: int| 0 <= j < name.len() - 1 ==> !((#[trigger] name[j]) == ']' && name[j + 1] == '('),
        forall|j: int| 0 <= j < value.len() ==> value[j] != ')',
    ensures
        event_parses(event_chars(name, value)),
        event_parse(event_chars(name, value)).0 == name,
        event_parse(event_chars(name, value)).1 == value,
{
    let s = event_chars(name, value);
    let i = name.len() as int + 1;
    assert(s.len() == name.len() + value.len() + 4);
    assert(s[0] == '[');
    assert(s[i] == ']');
    assert(s[i + 1] == '(');
    assert(forall|j: int| 1 <= j < i ==> s[j] == name[j - 1]);
    assert(forall|j: int| i + 2 <= j < s.len() - 1 ==> s[j] == value[j - i - 2]);
    assert(s[s.len() - 1] == ')');
    assert forall|j: int| 0 <= j < i implies !((#[trigger] s[j]) == ']' && s[j + 1] == '(') by {
        if j == 0 {
        } else if j < i - 1 {
            assert(s[j] == name[j - 1] && s[j + 1] == name[j]);
        } else {
            assert(s[j + 1] == ']');
        }
    }
    lemma_first_sep_at(s, i);
    assert(event_parses(s));
    assert(s.subrange(1, i) =~= name);
    assert(s.subrange(i + 2, s.len() - 1) =~= value);
}

/// The notification the presence monitor emits when the device topology
/// changed: `[usb_hotplug](changed)`.
pub fn usb_changed_event() -> (r: String)
    ensures
        r@ == event_chars("usb_hotplug"@, "changed"@),
{
    encode_event("usb_hotplug", "changed")
}

/// What the UI collaborator must do with one event from the engines.
#[derive(PartialEq, Eq, Structural, Clone, Copy, Debug)]
pub enum UiAction {
    /// The session opened: enable input, pause polling.
    SessionOpened,
    /// The session is gone: tear the input down, resume polling, and say
    /// whether it never opened at all or closed after running.
    SessionClosed { open_failed: bool },
    /// The device topology changed while no session is open: refresh the
    /// port list.
    RefreshPorts,
    /// Anything else is ignored.
    Nothing,
}

/// The action owed for one parsed event, given whether a session is open.
pub open spec fn spec_ui_action(event: Seq<char>, value: Seq<char>, port_open: bool) -> UiAction {
    if event == "open_port"@ && value == "ok"@ {
        UiAction::SessionOpened
    } else if (event == "open_port"@ && value == "failed"@) || event == "close_port"@ {
        UiAction::SessionClosed { open_failed: event == "open_port"@ }
    } else if event == "usb_hotplug"@ && value == "changed"@ && !port_open {
        UiAction::RefreshPorts
    } else {
        UiAction::Nothing
    }
}

/// Decide what the UI must do with one parsed event.
pub fn ui_dispatch(event: &str, value: &str, port_open: bool) -> (r: UiAction)
    ensures
        r == spec_ui_action(event@, value@, port_open),
{
    if str_eq(event, "open_port") && str_eq(value, "ok") {
        UiAction::SessionOpened
    } else if (str_eq(event, "open_port") && str_eq(value, "failed")) || str_eq(
        event,
        "close_port",
    ) {
        UiAction::SessionClosed { open_failed: str_eq(event, "open_port") }
    } else if str_eq(event, "usb_hotplug") && str_eq(value, "changed") && !port_open {
        UiAction::RefreshPorts
    } else {
        UiAction::Nothing
    }
}

} // verus!
