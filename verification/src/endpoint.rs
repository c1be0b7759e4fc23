//! Connection endpoint parsing.
//!
//! Endpoints can be:
//! - Pin references: `"R1:1"`, `"U1:VCC"` (component:pin)
//! - Net labels: `"&GND"`, `"&VCC"`, `"&SDA"` (ampersand prefix)

use vstd::prelude::*;

use crate::text::{
    chars_of, find_char, has_char, has_prefix, is_unicode_ws, lemma_trim_bounds, lemma_trim_noop,
    push_char, str_eq, string_from_chars, to_uppercase, trim, trim_chars, uppercase,
};

verus! {

/// A connection endpoint - either a pin on a component or a net label
#[derive(Debug, Clone)]
pub enum ConnectionEndpoint {
    /// Pin on a component (reference:pin_number)
    Pin {
        /// Component reference designator (e.g., "R1", "U1")
        reference: String,
        /// Pin number or name (e.g., "1", "VCC")
        pin: String,
    },
    /// Net label (e.g., "GND", "VCC")
    Net(String),
}

/// The abstract value of an endpoint: its texts as character sequences.
pub enum EndpointView {
    Pin { reference: Seq<char>, pin: Seq<char> },
    Net(Seq<char>),
}

impl View for ConnectionEndpoint {
    type V = EndpointView;

    open spec fn view(&self) -> EndpointView {
        match self {
            ConnectionEndpoint::Pin { reference, pin } => EndpointView::Pin {
                reference: reference@,
                pin: pin@,
            },
            ConnectionEndpoint::Net(name) => EndpointView::Net(name@),
        }
    }
}

/// `i` is the position of the first `:` in `t`.
pub open spec fn first_colon(t: Seq<char>, i: int) -> bool {
    &&& 0 <= i < t.len()
    &&& t[i] == ':'
    &&& forall|j: int| 0 <= j < i ==> t[j] != ':'
}

/// The endpoint that a text denotes, if it denotes one.
pub open spec fn parse_endpoint_spec(s: Seq<char>) -> Option<EndpointView> {
    let t = trim(s);
    if t.len() == 0 {
        None
    } else if t[0] == '&' {
        if t.len() == 1 {
            None
        } else {
            Some(EndpointView::Net(t.drop_first()))
        }
    } else if exists|i: int| first_colon(t, i) {
        let i = choose|i: int| first_colon(t, i);
        if i == 0 || i + 1 == t.len() {
            None
        } else {
            Some(EndpointView::Pin { reference: t.subrange(0, i), pin: t.subrange(i + 1, t.len() as int) })
        }
    } else {
        None
    }
}

/// The text an endpoint is written as: `REF:PIN` or `&NET`.
pub open spec fn endpoint_text(v: EndpointView) -> Seq<char> {
    match v {
        EndpointView::Pin { reference, pin } => reference + seq![':'] + pin,
        EndpointView::Net(name) => seq!['&'] + name,
    }
}

/// An endpoint whose text reads back as itself: the parts are non-empty,
/// the reference holds no `:` and does not start with `&`, and no whitespace
/// stands at either end of the text.
pub open spec fn is_canonical(v: EndpointView) -> bool {
    match v {
        EndpointView::Pin { reference, pin } => {
            &&& reference.len() > 0
            &&& pin.len() > 0
            &&& !reference.contains(':')
            &&& reference[0] != '&'
            &&& !is_unicode_ws(reference[0])
            &&& !is_unicode_ws(pin.last())
        },
        EndpointView::Net(name) => name.len() > 0 && !is_unicode_ws(name.last()),
    }
}

/// Errors that can occur during connection operations
#[derive(Debug, Clone)]
pub enum ConnectionError {
    /// Invalid endpoint format
    InvalidEndpoint(String),
    /// Component not found
    ComponentNotFound(String),
    /// Pin not found on component
    PinNotFound { reference: String, pin: String },
    /// Not enough endpoints (minimum 2 required)
    InsufficientEndpoints,
    /// No connection found between endpoints
    NoConnection,
    /// Other errors
    Other(String),
}

impl ConnectionError {
    /// The message shown for this error.
    pub open spec fn message_spec(&self) -> Seq<char> {
        match self {
            ConnectionError::InvalidEndpoint(s) => "Invalid endpoint '"@ + s@
                + "'. Use 'REF:PIN' for pins or '&NET' for net labels"@,
            ConnectionError::ComponentNotFound(r) => "Component '"@ + r@ + "' not found"@,
            ConnectionError::PinNotFound { reference, pin } => "Pin '"@ + pin@
                + "' not found on component '"@ + reference@ + "'"@,
            ConnectionError::InsufficientEndpoints =>
                "At least 2 endpoints are required for a connection"@,
            ConnectionError::NoConnection =>
                "No connection found between the specified endpoints"@,
            ConnectionError::Other(msg) => msg@,
        }
    }

    /// The message shown for this error.
    pub fn to_string(&self) -> (r: String)
        ensures
            r@ == self.message_spec(),
    {
        match self {
            ConnectionError::InvalidEndpoint(s) => {
                let mut r = String::from_str("Invalid endpoint '");
                r.append(s.as_str());
                r.append("'. Use 'REF:PIN' for pins or '&NET' for net labels");
                r
            },
            ConnectionError::ComponentNotFound(c) => {
                let mut r = String::from_str("Component '");
                r.append(c.as_str());
                r.append("' not found");
                r
            },
            ConnectionError::PinNotFound { reference, pin } => {
                let mut r = String::from_str("Pin '");
                r.append(pin.as_str());
                r.append("' not found on component '");
                r.append(reference.as_str());
                r.append("'");
                r
            },
            ConnectionError::InsufficientEndpoints => String::from_str(
                "At least 2 endpoints are required for a connection",
            ),
            ConnectionError::NoConnection => String::from_str(
                "No connection found between the specified endpoints",
            ),
            ConnectionError::Other(msg) => msg.clone(),
        }
    }
}

impl ConnectionEndpoint {
    /// Parse an endpoint string into a ConnectionEndpoint
    ///
    /// # Format
    /// - `"R1:1"` → Pin { reference: "R1", pin: "1" }
    /// - `"&GND"` → Net("GND")
    ///
    /// Surrounding whitespace is ignored. Any other text is an
    /// `InvalidEndpoint` error that carries the trimmed text.
    pub fn parse(s: &str) -> (r: Result<Self, ConnectionError>)
        ensures
            match parse_endpoint_spec(s@) {
                Some(v) => r matches Ok(e) && e@ == v,
                None => r matches Err(ConnectionError::InvalidEndpoint(t)) && t@ == trim(s@),
            },
    {
        let v = chars_of(s);
        let (lo, hi) = trim_chars(&v);
        let ghost t = trim(s@);
        if lo == hi {
            return Err(ConnectionError::InvalidEndpoint(string_from_chars(&v, lo, hi)));
        }
        assert(t[0] == v@[lo as int]);
        if v[lo] == '&' {
            if hi - lo == 1 {
                return Err(ConnectionError::InvalidEndpoint(string_from_chars(&v, lo, hi)));
            }
            let name = string_from_chars(&v, lo + 1, hi);
            assert(name@ == t.drop_first());
            return Ok(ConnectionEndpoint::Net(name));
        }
        match find_char(&v, lo, hi, ':') {
            Some(c) => {
                let ghost i = c - lo;
                assert(first_colon(t, i)) by {
                    assert forall|j: int| 0 <= j < i implies t[j] != ':' by {
                        assert(t[j] == v@[lo + j]);
                    }
                }
                assert forall|k: int| first_colon(t, k) implies k == i by {
                    if k < i {
                        assert(t[k] == v@[lo + k]);
                    } else if k > i {
                        assert(t[i] == ':');
                    }
                }
                if c == lo || c + 1 == hi {
                    return Err(ConnectionError::InvalidEndpoint(string_from_chars(&v, lo, hi)));
                }
                let reference = string_from_chars(&v, lo, c);
                let pin = string_from_chars(&v, c + 1, hi);
                assert(reference@ == t.subrange(0, i));
                assert(pin@ == t.subrange(i + 1, t.len() as int));
                Ok(ConnectionEndpoint::Pin { reference, pin })
            },
            None => {
                assert forall|k: int| !first_colon(t, k) by {
                    if 0 <= k < t.len() {
                        assert(t[k] == v@[lo + k]);
                    }
                }
                Err(ConnectionError::InvalidEndpoint(string_from_chars(&v, lo, hi)))
            },
        }
    }

    /// Check if this endpoint is a pin
    pub fn is_pin(&self) -> (r: bool)
        ensures
            r == (self is Pin),
    {
        match self {
            ConnectionEndpoint::Pin { .. } => true,
            _ => false,
        }
    }

    /// Check if this endpoint is a net label
    pub fn is_net(&self) -> (r: bool)
        ensures
            r == (self is Net),
    {
        match self {
            ConnectionEndpoint::Net(_) => true,
            _ => false,
        }
    }

    /// Get the pin reference if this is a pin endpoint
    pub fn as_pin(&self) -> (r: Option<(&str, &str)>)
        ensures
            match self {
                ConnectionEndpoint::Pin { reference, pin } => r matches Some(p) && p.0@
                    == reference@ && p.1@ == pin@,
                ConnectionEndpoint::Net(_) => r is None,
            },
    {
        match self {
            ConnectionEndpoint::Pin { reference, pin } => Some((reference.as_str(), pin.as_str())),
            _ => None,
        }
    }

    /// Get the net name if this is a net endpoint
    pub fn as_net(&self) -> (r: Option<&str>)
        ensures
            match self {
                ConnectionEndpoint::Net(name) => r matches Some(n) && n@ == name@,
                ConnectionEndpoint::Pin { .. } => r is None,
            },
    {
        match self {
            ConnectionEndpoint::Net(name) => Some(name.as_str()),
            _ => None,
        }
    }

    /// Check if this is a power net (GND, VCC, +3V3, etc.)
    pub fn is_power_net(&self) -> (r: bool)
        ensures
            r == match self {
                ConnectionEndpoint::Net(name) => is_power_net_upper_spec(uppercase(name@)),
                ConnectionEndpoint::Pin { .. } => false,
            },
    {
        match self {
            ConnectionEndpoint::Net(name) => is_power_net_name(name.as_str()),
            _ => false,
        }
    }

    /// The text of this endpoint: `REF:PIN` for a pin, `&NET` for a net.
    pub fn to_string(&self) -> (r: String)
        ensures
            r@ == endpoint_text(self@),
    {
        match self {
            ConnectionEndpoint::Pin { reference, pin } => {
                let mut r = reference.clone();
                push_char(&mut r, ':');
                r.append(pin.as_str());
                r
            },
            ConnectionEndpoint::Net(name) => {
                let mut r = String::new();
                push_char(&mut r, '&');
                r.append(name.as_str());
                r
            },
        }
    }
}

/// Every endpoint that parsing produces is canonical.
pub proof fn lemma_parsed_endpoint_is_canonical(s: Seq<char>)
    ensures
        parse_endpoint_spec(s) matches Some(v) ==> is_canonical(v),
{
    let t = trim(s);
    lemma_trim_bounds(s);
    if t.len() > 0 && t[0] != '&' && exists|i: int| first_colon(t, i) {
        let i = choose|i: int| first_colon(t, i);
        if i != 0 && i + 1 != t.len() {
            let r = t.subrange(0, i);
            assert(!r.contains(':')) by {
                assert forall|j: int| 0 <= j < r.len() implies r[j] != ':' by {
                    assert(r[j] == t[j]);
                }
            }
        }
    }
}

/// Writing a canonical endpoint as text and parsing that text gives the endpoint back.
pub proof fn lemma_endpoint_text_round_trip(v: EndpointView)
    requires
        is_canonical(v),
    ensures
        parse_endpoint_spec(endpoint_text(v)) == Some(v),
{
    let t = endpoint_text(v);
    match v {
        EndpointView::Pin { reference, pin } => {
            assert(t[0] == reference[0]);
            assert(t.last() == pin.last());
            lemma_trim_noop(t);
            let i = reference.len() as int;
            assert(first_colon(t, i)) by {
                assert forall|j: int| 0 <= j < i implies t[j] != ':' by {
                    assert(t[j] == reference[j]);
                }
            }
            assert forall|k: int| first_colon(t, k) implies k == i by {
                if k < i {
                    assert(t[k] == reference[k]);
                }
            }
            assert(t.subrange(0, i) == reference);
            assert(t.subrange(i + 1, t.len() as int) == pin);
        },
        EndpointView::Net(name) => {
            assert(t.last() == name.last());
            lemma_trim_noop(t);
            assert(t.drop_first() == name);
        },
    }
}

/// Parsing the text of a parsed endpoint gives the same endpoint.
pub proof fn lemma_parse_text_parse(s: Seq<char>)
    ensures
        parse_endpoint_spec(s) matches Some(v) ==> parse_endpoint_spec(endpoint_text(v)) == Some(v),
{
    lemma_parsed_endpoint_is_canonical(s);
    if let Some(v) = parse_endpoint_spec(s) {
        lemma_endpoint_text_round_trip(v);
    }
}

/// Power-net names, given in upper case: ground names, `VCC*`, `VDD*`, `VSS*`,
/// signed rails such as `+3V3` or `-12V`, and common rail names.
pub open spec fn is_power_net_upper_spec(u: Seq<char>) -> bool {
    ||| u == "GND"@
    ||| u == "AGND"@
    ||| u == "DGND"@
    ||| u == "PGND"@
    ||| u == "VSS"@
    ||| u == "GNDA"@
    ||| u == "GNDD"@
    ||| "VCC"@.is_prefix_of(u)
    ||| "VDD"@.is_prefix_of(u)
    ||| "VSS"@.is_prefix_of(u)
    ||| (u.len() > 0 && (u[0] == '+' || u[0] == '-') && u.contains('V'))
    ||| u == "3V3"@
    ||| u == "5V"@
    ||| u == "12V"@
    ||| u == "1V8"@
    ||| u == "2V5"@
    ||| u == "VBAT"@
    ||| u == "VIN"@
    ||| u == "VOUT"@
}

/// Whether an upper-case net name is a power net.
pub fn is_power_net_upper(upper: &str) -> (r: bool)
    ensures
        r == is_power_net_upper_spec(upper@),
{
    if str_eq(upper, "GND") || str_eq(upper, "AGND") || str_eq(upper, "DGND") || str_eq(
        upper,
        "PGND",
    ) || str_eq(upper, "VSS") || str_eq(upper, "GNDA") || str_eq(upper, "GNDD") {
        return true;
    }
    let u = chars_of(upper);
    if has_prefix(&u, &chars_of("VCC")) || has_prefix(&u, &chars_of("VDD")) || has_prefix(
        &u,
        &chars_of("VSS"),
    ) {
        return true;
    }
    if u.len() > 0 && (u[0] == '+' || u[0] == '-') && has_char(&u, 'V') {
        return true;
    }
    str_eq(upper, "3V3") || str_eq(upper, "5V") || str_eq(upper, "12V") || str_eq(upper, "1V8")
        || str_eq(upper, "2V5") || str_eq(upper, "VBAT") || str_eq(upper, "VIN") || str_eq(
        upper,
        "VOUT",
    )
}

/// Check if a net name is a power net.
/// Power nets use global labels instead of local labels.
pub fn is_power_net_name(name: &str) -> (r: bool)
    ensures
        r == is_power_net_upper_spec(uppercase(name@)),
{
    let upper = to_uppercase(name);
    is_power_net_upper(upper.as_str())
}

} // verus!
