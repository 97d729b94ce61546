use vstd::prelude::*;
use vstd::string::StringExecFns;
use crate::strutil::str_eq;

verus! {

/// The baud rates offered for selection, smallest first.
pub open spec fn baud_rate_strings() -> Seq<Seq<char>> {
    seq![
        "300"@,
        "1200"@,
        "2400"@,
        "4800"@,
        "9600"@,
        "14400"@,
        "19200"@,
        "28800"@,
        "38400"@,
        "57600"@,
        "74880"@,
        "115200"@,
        "230400"@,
        "250000"@,
        "460800"@,
        "500000"@,
        "576000"@,
        "921600"@,
        "1000000"@,
        "2000000"@,
    ]
}

/// The selectable baud rates, exactly the list above and in its order.
pub fn get_baud_rate_vec() -> (r: Vec<String>)
    ensures
        r@.len() == baud_rate_strings().len(),
        forall|i: int| 0 <= i < r@.len() ==> r@[i]@ == baud_rate_strings()[i],
{
    let mut v: Vec<String> = Vec::new();
    v.push(String::from_str("300"));
    v.push(String::from_str("1200"));
    v.push(String::from_str("2400"));
    v.push(String::from_str("4800"));
    v.push(String::from_str("9600"));
    v.push(String::from_str("14400"));
    v.push(String::from_str("19200"));
    v.push(String::from_str("28800"));
    v.push(String::from_str("38400"));
    v.push(String::from_str("57600"));
    v.push(String::from_str("74880"));
    v.push(String::from_str("115200"));
    v.push(String::from_str("230400"));
    v.push(String::from_str("250000"));
    v.push(String::from_str("460800"));
    v.push(String::from_str("500000"));
    v.push(String::from_str("576000"));
    v.push(String::from_str("921600"));
    v.push(String::from_str("1000000"));
    v.push(String::from_str("2000000"));
    v
}

/// The numeric value of a run of decimal digit characters.
pub open spec fn dec_value(s: Seq<char>) -> int
    decreases s.len(),
{
    if s.len() == 0 {
        0
    } else {
        dec_value(s.drop_last()) * 10 + (s.last() as u32 - 48)
    }
}

/// Whether every character is a decimal digit.
pub open spec fn all_digits(s: Seq<char>) -> bool {
    forall|i: int| 0 <= i < s.len() ==> 48 <= (#[trigger] s[i]) as u32 <= 57
}

/// What a baud-rate string parses to: its numeric value, when it is a
/// nonempty run of decimal digits whose value fits; nothing otherwise.
pub open spec fn spec_parse_baud(s: Seq<char>) -> Option<u32> {
    if s.len() > 0 && all_digits(s) && dec_value(s) <= u32::MAX {
        Some(dec_value(s) as u32)
    } else {
        None
    }
}

/// The value of digits so far never goes down when another digit arrives.
proof fn lemma_dec_value_nonneg(s: Seq<char>)
    requires
        all_digits(s),
    ensures
        dec_value(s) >= 0,
    decreases s.len(),
{
    if s.len() > 0 {
        assert(all_digits(s.drop_last())) by {
            assert(forall|i: int|
                0 <= i < s.drop_last().len() ==> s.drop_last()[i] == s[i]);
        }
        lemma_dec_value_nonneg(s.drop_last());
    }
}

/// Parse a baud-rate string: the numeric value of a nonempty run of decimal
/// digits, as long as it fits; anything else is rejected.
pub fn parse_baud(s: &str) -> (r: Option<u32>)
    ensures
        r == spec_parse_baud(s@),
{
    let n = s.unicode_len();
    if n == 0 {
        return None;
    }
    let mut val: u64 = 0;
    let mut over = false;
    let mut i: usize = 0;
    while i < n
        invariant
            n == s@.len(),
            0 < n,
            0 <= i <= n,
            all_digits(s@.take(i as int)),
            !over ==> val == dec_value(s@.take(i as int)) && val <= u32::MAX,
            over ==> dec_value(s@.take(i as int)) > u32::MAX,
        decreases n - i,
    {
        let c = s.get_char(i);
        let u = c as u32;
        if u < 48 || u > 57 {
            proof {
                assert(48 <= (s@[i as int]) as u32 <= 57 ==> false);
            }
            return None;
        }
        let d: u64 = (u - 48) as u64;
        proof {
            assert(s@.take(i + 1).drop_last() =~= s@.take(i as int));
            assert(s@.take(i + 1).last() == s@[i as int]);
            assert(forall|j: int|
                0 <= j < i + 1 ==> s@.take(i + 1)[j] == s@[j]);
            if over {
                lemma_dec_value_nonneg(s@.take(i + 1));
            }
        }
        if over {
        } else {
            let next = val * 10 + d;
            if next > 0xffff_ffff {
                over = true;
            } else {
                val = next;
            }
        }
        i += 1;
    }
    proof {
        assert(s@.take(n as int) =~= s@);
    }
    if over {
        None
    } else {
        Some(val as u32)
    }
}

/// How the request to open a port is settled before any device is touched.
#[derive(PartialEq, Eq, Structural, Clone, Copy, Debug)]
pub enum OpenRequest {
    /// Both selections are usable: open at this baud rate.
    Open(u32),
    /// No port is selected yet.
    NoPort,
    /// No baud rate is selected yet.
    NoBaudRate,
    /// The selected baud rate is not a usable number.
    BadBaudRate,
}

/// The decision owed for one open request: a missing port is reported first,
/// then a missing rate, then an unusable rate; otherwise the parsed rate.
pub open spec fn spec_open_request(port: Seq<char>, baud: Seq<char>) -> OpenRequest {
    if port.len() == 0 {
        OpenRequest::NoPort
    } else if baud.len() == 0 {
        OpenRequest::NoBaudRate
    } else {
        match spec_parse_baud(baud) {
            Some(b) => OpenRequest::Open(b),
            None => OpenRequest::BadBaudRate,
        }
    }
}

/// Settle an open request from the two selections.
pub fn open_request(port_name: &str, baud_rate: &str) -> (r: OpenRequest)
    ensures
        r == spec_open_request(port_name@, baud_rate@),
{
    if port_name.is_empty() {
        OpenRequest::NoPort
    } else if baud_rate.is_empty() {
        OpenRequest::NoBaudRate
    } else {
        match parse_baud(baud_rate) {
            Some(b) => OpenRequest::Open(b),
            None => OpenRequest::BadBaudRate,
        }
    }
}

/// The coarse kind of a listed port.
#[derive(PartialEq, Eq, Structural, Clone, Copy, Debug)]
pub enum PortKind {
    Usb,
    Pci,
    Bluetooth,
    Unknown,
}

/// The label shown for a port kind.
pub open spec fn kind_label_chars(k: PortKind) -> Seq<char> {
    match k {
        PortKind::Usb => "USB"@,
        PortKind::Pci => "PCI"@,
        PortKind::Bluetooth => "Bluetooth"@,
        PortKind::Unknown => "Unknown"@,
    }
}

impl PortKind {
    /// Render the label shown for this kind of port.
    pub fn label(&self) -> (r: String)
        ensures
            r@ == kind_label_chars(*self),
    {
        match self {
            PortKind::Usb => String::from_str("USB"),
            PortKind::Pci => String::from_str("PCI"),
            PortKind::Bluetooth => String::from_str("Bluetooth"),
            PortKind::Unknown => String::from_str("Unknown"),
        }
    }
}

/// The title under which a port is listed: its name, then its kind label in
/// parentheses.
pub fn port_title(port_name: &str, port_type: &str) -> (r: String)
    ensures
        r@ == port_name@ + " ("@ + port_type@ + ")"@,
{
    let mut s = String::new();
    s.append(port_name);
    s.append(" (");
    s.append(port_type);
    s.append(")");
    proof {
        assert(s@ =~= port_name@ + " ("@ + port_type@ + ")"@);
    }
    s
}

/// Where the previously selected port reappears in a freshly listed set of
/// ports: the first entry with that name, if it is still attached.
pub fn selected_port_index(ports: &Vec<String>, selected: &str) -> (r: Option<usize>)
    ensures
        (match r {
            Some(i) => i < ports@.len() && ports@[i as int]@ == selected@ && (forall|j: int|
                0 <= j < i ==> ports@[j]@ != selected@),
            None => forall|j: int| 0 <= j < ports@.len() ==> ports@[j]@ != selected@,
        }),
{
    let n = ports.len();
    let mut i: usize = 0;
    while i < n
        invariant
            n == ports@.len(),
            0 <= i <= n,
            forall|j: int| 0 <= j < i ==> ports@[j]@ != selected@,
        decreases n - i,
    {
        if str_eq(ports[i].as_str(), selected) {
            return Some(i);
        }
        i += 1;
    }
    None
}

} // verus!
