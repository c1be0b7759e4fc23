//! Semantic outline: a connectivity-centric view of a schematic that folds
//! common two-pin passives (pullups, pulldowns, decoupling caps, switches)
//! into annotations on the nets they serve.

use vstd::prelude::*;

use crate::endpoint::{is_power_net_upper, is_power_net_upper_spec};
use crate::text::{
    chars_of, find_char, has_prefix, push_char, str_eq, string_from_chars, to_uppercase, uppercase,
};

verus! {

/// Component type classification based on lib_id
#[derive(Debug, Clone, Copy, PartialEq, Eq, Structural)]
pub enum ComponentType {
    Resistor,
    Capacitor { polarized: bool },
    Inductor,
    Diode,
    Transistor,
    IC,
    Connector,
    Relay,
    Switch,
    Other,
}

/// The classification of a library id.
pub open spec fn classify_lib_id(lib_id: Seq<char>) -> ComponentType {
    if lib_id == "Device:R"@ || lib_id == "Device:R_Small"@ || lib_id == "Device:R_US"@ || lib_id
        == "Device:R_Small_US"@ {
        ComponentType::Resistor
    } else if lib_id == "Device:C"@ || lib_id == "Device:C_Small"@ {
        ComponentType::Capacitor { polarized: false }
    } else if lib_id == "Device:C_Polarized"@ || lib_id == "Device:C_Polarized_Small"@ || lib_id
        == "Device:C_Polarized_US"@ {
        ComponentType::Capacitor { polarized: true }
    } else if lib_id == "Device:L"@ || lib_id == "Device:L_Small"@ || lib_id
        == "Device:L_Core_Ferrite"@ || lib_id == "Device:L_Core_Iron"@ {
        ComponentType::Inductor
    } else if "Diode:"@.is_prefix_of(lib_id) || "Device:LED"@.is_prefix_of(lib_id) {
        ComponentType::Diode
    } else if "Transistor_"@.is_prefix_of(lib_id) {
        ComponentType::Transistor
    } else if "Connector:"@.is_prefix_of(lib_id) {
        ComponentType::Connector
    } else if "Relay:"@.is_prefix_of(lib_id) {
        ComponentType::Relay
    } else if "Switch:"@.is_prefix_of(lib_id) {
        ComponentType::Switch
    } else {
        ComponentType::Other
    }
}

fn starts_with_str(v: &Vec<char>, p: &str) -> (r: bool)
    ensures
        r == p@.is_prefix_of(v@),
{
    has_prefix(v, &chars_of(p))
}

impl ComponentType {
    /// Classify a component by its lib_id.
    /// Uses specific KiCAD Device library symbols for the passives and
    /// library prefixes for the rest; the reference plays no part.
    pub fn classify(_reference: &str, lib_id: &str) -> (r: Self)
        ensures
            r == classify_lib_id(lib_id@),
    {
        if str_eq(lib_id, "Device:R") || str_eq(lib_id, "Device:R_Small") || str_eq(
            lib_id,
            "Device:R_US",
        ) || str_eq(lib_id, "Device:R_Small_US") {
            return ComponentType::Resistor;
        }
        if str_eq(lib_id, "Device:C") || str_eq(lib_id, "Device:C_Small") {
            return ComponentType::Capacitor { polarized: false };
        }
        if str_eq(lib_id, "Device:C_Polarized") || str_eq(lib_id, "Device:C_Polarized_Small")
            || str_eq(lib_id, "Device:C_Polarized_US") {
            return ComponentType::Capacitor { polarized: true };
        }
        if str_eq(lib_id, "Device:L") || str_eq(lib_id, "Device:L_Small") || str_eq(
            lib_id,
            "Device:L_Core_Ferrite",
        ) || str_eq(lib_id, "Device:L_Core_Iron") {
            return ComponentType::Inductor;
        }
        let v = chars_of(lib_id);
        if starts_with_str(&v, "Diode:") || starts_with_str(&v, "Device:LED") {
            ComponentType::Diode
        } else if starts_with_str(&v, "Transistor_") {
            ComponentType::Transistor
        } else if starts_with_str(&v, "Connector:") {
            ComponentType::Connector
        } else if starts_with_str(&v, "Relay:") {
            ComponentType::Relay
        } else if starts_with_str(&v, "Switch:") {
            ComponentType::Switch
        } else {
            ComponentType::Other
        }
    }

    /// Check if this is a 2-pin passive component that can be absorbed into semantic patterns
    pub fn is_two_pin_passive(&self) -> (r: bool)
        ensures
            r == (self is Resistor || self is Capacitor || self is Inductor),
    {
        match self {
            ComponentType::Resistor | ComponentType::Capacitor { .. } | ComponentType::Inductor => true,
            _ => false,
        }
    }

    /// Check if this is a 2-pin component that can be merged into nets
    pub fn is_two_pin_mergeable(&self) -> (r: bool)
        ensures
            r == (self is Resistor || self is Capacitor || self is Inductor || self is Switch),
    {
        match self {
            ComponentType::Resistor
            | ComponentType::Capacitor { .. }
            | ComponentType::Inductor
            | ComponentType::Switch => true,
            _ => false,
        }
    }

    /// Check if this is a polarized capacitor
    pub fn is_polarized_cap(&self) -> (r: bool)
        ensures
            r == (*self == ComponentType::Capacitor { polarized: true }),
    {
        match self {
            ComponentType::Capacitor { polarized: true } => true,
            _ => false,
        }
    }
}

/// Net type classification
#[derive(Debug, Clone, Copy, PartialEq, Eq, Structural)]
pub enum NetType {
    Power,
    Ground,
    Signal,
}

/// Net label scope - determines the visibility/reach of a net
#[derive(Debug, Clone, Copy, PartialEq, Eq, Structural)]
pub enum NetScope {
    /// Global scope - visible across all sheets (from global_label or power symbols)
    Global,
    /// Hierarchical scope - connects parent/child sheets (from hierarchical_label)
    Hierarchical,
    /// Local scope - only visible within current sheet (from label)
    Local,
}

impl Default for NetScope {
    fn default() -> (r: Self)
        ensures
            r == NetScope::Global,
    {
        NetScope::Global
    }
}

/// The net type of an upper-case net name: the GND variants are ground
/// (VSS is a supply rail, not ground), other power names are power.
pub open spec fn classify_upper_spec(u: Seq<char>) -> NetType {
    if u == "GND"@ || u == "AGND"@ || u == "DGND"@ || u == "PGND"@ || u == "GNDA"@ || u
        == "GNDD"@ {
        NetType::Ground
    } else if is_power_net_upper_spec(u) {
        NetType::Power
    } else {
        NetType::Signal
    }
}

/// The net type of a net name.
pub open spec fn classify_net_spec(name: Seq<char>) -> NetType {
    classify_upper_spec(uppercase(name))
}

impl NetType {
    /// Classify an upper-case net name.
    pub fn classify_upper(upper: &str) -> (r: Self)
        ensures
            r == classify_upper_spec(upper@),
    {
        if str_eq(upper, "GND") || str_eq(upper, "AGND") || str_eq(upper, "DGND") || str_eq(
            upper,
            "PGND",
        ) || str_eq(upper, "GNDA") || str_eq(upper, "GNDD") {
            NetType::Ground
        } else if is_power_net_upper(upper) {
            NetType::Power
        } else {
            NetType::Signal
        }
    }

    /// Classify a net by its name
    pub fn classify(name: &str) -> (r: Self)
        ensures
            r == classify_net_spec(name@),
    {
        let upper = to_uppercase(name);
        Self::classify_upper(upper.as_str())
    }

    pub fn is_ground(&self) -> (r: bool)
        ensures
            r == (*self == NetType::Ground),
    {
        match self {
            NetType::Ground => true,
            _ => false,
        }
    }

    pub fn is_power(&self) -> (r: bool)
        ensures
            r == (*self == NetType::Power),
    {
        match self {
            NetType::Power => true,
            _ => false,
        }
    }
}

/// The character that marks a net's scope in outline text.
pub open spec fn scope_prefix(scope: NetScope) -> char {
    match scope {
        NetScope::Global => '&',
        NetScope::Hierarchical => '^',
        NetScope::Local => '!',
    }
}

fn scope_prefix_char(scope: NetScope) -> (c: char)
    ensures
        c == scope_prefix(scope),
{
    match scope {
        NetScope::Global => '&',
        NetScope::Hierarchical => '^',
        NetScope::Local => '!',
    }
}

/// What a merged passive component connects to on its "other" side
#[derive(Debug)]
pub enum MergedTarget {
    /// Connected to a net (power, ground, or signal) with scope
    Net { name: String, scope: NetScope },
    /// Connected to a single component pin
    Pin { reference: String, pin: String },
    /// Connected to another merged component (for series chains)
    Merged(Box<SemanticConnection>),
}

/// A semantic connection endpoint
#[derive(Debug)]
pub enum SemanticConnection {
    /// Regular pin reference (e.g., "U1:GPIO0")
    Pin { reference: String, pin: String },
    /// Net label with scope (e.g., "&VCC" for global, "^GPIO0" for hierarchical, "!SIGNAL" for local)
    Net { name: String, scope: NetScope },
    /// Merged resistor - specialized in the text based on target
    MergedResistor { reference: String, value: String, target: MergedTarget },
    /// Merged capacitor - specialized in the text based on target
    MergedCapacitor { reference: String, value: String, polarized: bool, target: MergedTarget },
    /// Merged switch
    MergedSwitch { reference: String, target: MergedTarget },
}

/// The target is a net whose name is a ground name.
pub open spec fn target_is_ground(t: MergedTarget) -> bool {
    t matches MergedTarget::Net { name, .. } && classify_net_spec(name@) == NetType::Ground
}

/// The target is a net whose name is a power name.
pub open spec fn target_is_power(t: MergedTarget) -> bool {
    t matches MergedTarget::Net { name, .. } && classify_net_spec(name@) == NetType::Power
}

/// The text written for a merge target.
pub open spec fn target_text(t: MergedTarget) -> Seq<char>
    decreases t,
{
    match t {
        MergedTarget::Net { name, scope } => seq![scope_prefix(scope)] + name@,
        MergedTarget::Pin { reference, pin } => reference@ + seq![':'] + pin@,
        MergedTarget::Merged(inner) => connection_text(*inner),
    }
}

/// The text written for a semantic connection.
pub open spec fn connection_text(c: SemanticConnection) -> Seq<char>
    decreases c,
{
    match c {
        SemanticConnection::Pin { reference, pin } => reference@ + seq![':'] + pin@,
        SemanticConnection::Net { name, scope } => seq![scope_prefix(scope)] + name@,
        SemanticConnection::MergedResistor { reference, value, target } => {
            if target_is_power(target) {
                "$PULLUP("@ + reference@ + ", "@ + value@ + ", "@ + target_text(target) + ")"@
            } else if target_is_ground(target) {
                "$PULLDOWN("@ + reference@ + ", "@ + value@ + ")"@
            } else {
                "$RESISTOR("@ + reference@ + ", "@ + value@ + ", "@ + target_text(target) + ")"@
            }
        },
        SemanticConnection::MergedCapacitor { reference, value, polarized, target } => {
            if polarized {
                "$CAPACITOR_POL("@ + reference@ + ", "@ + value@ + ", "@ + target_text(target)
                    + ")"@
            } else {
                "$CAPACITOR("@ + reference@ + ", "@ + value@ + ", "@ + target_text(target) + ")"@
            }
        },
        SemanticConnection::MergedSwitch { reference, target } => "$SWITCH("@ + reference@
            + ", "@ + target_text(target) + ")"@,
    }
}

impl MergedTarget {
    pub fn is_ground(&self) -> (r: bool)
        ensures
            r == target_is_ground(*self),
    {
        match self {
            MergedTarget::Net { name, .. } => NetType::classify(name.as_str()).is_ground(),
            _ => false,
        }
    }

    pub fn is_power(&self) -> (r: bool)
        ensures
            r == target_is_power(*self),
    {
        match self {
            MergedTarget::Net { name, .. } => NetType::classify(name.as_str()).is_power(),
            _ => false,
        }
    }

    /// A copy of this target.
    pub fn duplicate(&self) -> (r: Self)
        ensures
            r == *self,
        decreases self,
    {
        match self {
            MergedTarget::Net { name, scope } => MergedTarget::Net { name: name.clone(), scope: *scope },
            MergedTarget::Pin { reference, pin } => MergedTarget::Pin {
                reference: reference.clone(),
                pin: pin.clone(),
            },
            MergedTarget::Merged(inner) => MergedTarget::Merged(Box::new(inner.duplicate())),
        }
    }

    /// The text of this target.
    pub fn to_string(&self) -> (r: String)
        ensures
            r@ == target_text(*self),
        decreases self,
    {
        match self {
            MergedTarget::Net { name, scope } => {
                let mut r = String::new();
                push_char(&mut r, scope_prefix_char(*scope));
                r.append(name.as_str());
                r
            },
            MergedTarget::Pin { reference, pin } => {
                let mut r = reference.clone();
                push_char(&mut r, ':');
                r.append(pin.as_str());
                r
            },
            MergedTarget::Merged(inner) => inner.to_string(),
        }
    }
}

impl SemanticConnection {
    /// A copy of this connection.
    pub fn duplicate(&self) -> (r: Self)
        ensures
            r == *self,
        decreases self,
    {
        match self {
            SemanticConnection::Pin { reference, pin } => SemanticConnection::Pin {
                reference: reference.clone(),
                pin: pin.clone(),
            },
            SemanticConnection::Net { name, scope } => SemanticConnection::Net {
                name: name.clone(),
                scope: *scope,
            },
            SemanticConnection::MergedResistor { reference, value, target } =>
                SemanticConnection::MergedResistor {
                reference: reference.clone(),
                value: value.clone(),
                target: target.duplicate(),
            },
            SemanticConnection::MergedCapacitor { reference, value, polarized, target } =>
                SemanticConnection::MergedCapacitor {
                reference: reference.clone(),
                value: value.clone(),
                polarized: *polarized,
                target: target.duplicate(),
            },
            SemanticConnection::MergedSwitch { reference, target } =>
                SemanticConnection::MergedSwitch {
                reference: reference.clone(),
                target: target.duplicate(),
            },
        }
    }

    /// The text of this connection, as shown in the outline.
    pub fn to_string(&self) -> (r: String)
        ensures
            r@ == connection_text(*self),
        decreases self,
    {
        match self {
            SemanticConnection::Pin { reference, pin } => {
                let mut r = reference.clone();
                push_char(&mut r, ':');
                r.append(pin.as_str());
                r
            },
            SemanticConnection::Net { name, scope } => {
                let mut r = String::new();
                push_char(&mut r, scope_prefix_char(*scope));
                r.append(name.as_str());
                r
            },
            SemanticConnection::MergedResistor { reference, value, target } => {
                if target.is_power() {
                    let t = target.to_string();
                    let mut r = String::from_str("$PULLUP(");
                    r.append(reference.as_str());
                    r.append(", ");
                    r.append(value.as_str());
                    r.append(", ");
                    r.append(t.as_str());
                    r.append(")");
                    r
                } else if target.is_ground() {
                    let mut r = String::from_str("$PULLDOWN(");
                    r.append(reference.as_str());
                    r.append(", ");
                    r.append(value.as_str());
                    r.append(")");
                    r
                } else {
                    let t = target.to_string();
                    let mut r = String::from_str("$RESISTOR(");
                    r.append(reference.as_str());
                    r.append(", ");
                    r.append(value.as_str());
                    r.append(", ");
                    r.append(t.as_str());
                    r.append(")");
                    r
                }
            },
            SemanticConnection::MergedCapacitor { reference, value, polarized, target } => {
                let t = target.to_string();
                let mut r = if *polarized {
                    String::from_str("$CAPACITOR_POL(")
                } else {
                    String::from_str("$CAPACITOR(")
                };
                r.append(reference.as_str());
                r.append(", ");
                r.append(value.as_str());
                r.append(", ");
                r.append(t.as_str());
                r.append(")");
                r
            },
            SemanticConnection::MergedSwitch { reference, target } => {
                let t = target.to_string();
                let mut r = String::from_str("$SWITCH(");
                r.append(reference.as_str());
                r.append(", ");
                r.append(t.as_str());
                r.append(")");
                r
            },
        }
    }
}


/// `s` holds exactly one `:`, at position `i`.
pub open spec fn only_colon_at(s: Seq<char>, i: int) -> bool {
    &&& 0 <= i < s.len()
    &&& s[i] == ':'
    &&& forall|j: int| 0 <= j < s.len() && j != i ==> s[j] != ':'
}

/// The target named by a `REF:PIN` text found on the other side of a merged
/// component: the pin itself, unless the text is not of that shape or the
/// reference is a power symbol (`#...`), where the net stands instead.
pub open spec fn merged_target_spec(
    pin_str: Seq<char>,
    net_name: Seq<char>,
    scope: NetScope,
) -> MergedTargetView {
    if exists|i: int| only_colon_at(pin_str, i) {
        let i = choose|i: int| only_colon_at(pin_str, i);
        let reference = pin_str.subrange(0, i);
        if reference.len() > 0 && reference[0] == '#' {
            MergedTargetView::Net { name: net_name, scope }
        } else {
            MergedTargetView::Pin { reference, pin: pin_str.subrange(i + 1, pin_str.len() as int) }
        }
    } else {
        MergedTargetView::Net { name: net_name, scope }
    }
}

/// The shape of a merge target that is a net or a pin, with its texts.
pub enum MergedTargetView {
    Net { name: Seq<char>, scope: NetScope },
    Pin { reference: Seq<char>, pin: Seq<char> },
}

/// Whether a target has the given net or pin shape.
pub open spec fn target_has_view(t: MergedTarget, v: MergedTargetView) -> bool {
    match v {
        MergedTargetView::Net { name, scope } => t matches MergedTarget::Net { name: n, scope: s }
            && n@ == name && s == scope,
        MergedTargetView::Pin { reference, pin } => t matches MergedTarget::Pin {
            reference: r,
            pin: p,
        } && r@ == reference && p@ == pin,
    }
}

/// Parse a merged target from a "ref:pin" string and net name/scope.
/// If the target is a power symbol (starts with #), use the net name instead.
pub fn parse_merged_target(pin_str: &str, net_name: &str, scope: NetScope) -> (r: MergedTarget)
    ensures
        target_has_view(r, merged_target_spec(pin_str@, net_name@, scope)),
{
    let v = chars_of(pin_str);
    match find_char(&v, 0, v.len(), ':') {
        Some(c) => {
            match find_char(&v, c + 1, v.len(), ':') {
                None => {
                    assert(only_colon_at(pin_str@, c as int));
                    assert forall|k: int| only_colon_at(pin_str@, k) implies k == c by {
                        if k != c {
                            assert(pin_str@[c as int] == ':');
                        }
                    }
                    if c > 0 && v[0] == '#' {
                        MergedTarget::Net { name: String::from_str(net_name), scope }
                    } else {
                        MergedTarget::Pin {
                            reference: string_from_chars(&v, 0, c),
                            pin: string_from_chars(&v, c + 1, v.len()),
                        }
                    }
                },
                Some(d) => {
                    assert forall|k: int| !only_colon_at(pin_str@, k) by {
                        if 0 <= k < v@.len() && k != c {
                            assert(pin_str@[c as int] == ':');
                        }
                        if k == c {
                            assert(pin_str@[d as int] == ':');
                        }
                    }
                    MergedTarget::Net { name: String::from_str(net_name), scope }
                },
            }
        },
        None => {
            assert forall|k: int| !only_colon_at(pin_str@, k) by {}
            MergedTarget::Net { name: String::from_str(net_name), scope }
        },
    }
}

/// A net as seen while merging: its name, scope and `(reference, pin)` pairs.
#[derive(Debug, Clone)]
pub struct NetData {
    /// Net name (if any)
    pub name: Option<String>,
    /// Net scope
    pub scope: NetScope,
    /// Pin connections as (reference, pin)
    pub pins: Vec<(String, String)>,
}

/// The texts of a net.
pub struct NetDataView {
    pub name: Option<Seq<char>>,
    pub scope: NetScope,
    pub pins: Seq<(Seq<char>, Seq<char>)>,
}

pub open spec fn opt_text(o: Option<String>) -> Option<Seq<char>> {
    match o {
        Some(s) => Some(s@),
        None => None,
    }
}

pub open spec fn pair_text(p: (String, String)) -> (Seq<char>, Seq<char>) {
    (p.0@, p.1@)
}

impl View for NetData {
    type V = NetDataView;

    open spec fn view(&self) -> NetDataView {
        NetDataView {
            name: opt_text(self.name),
            scope: self.scope,
            pins: self.pins@.map_values(|p: (String, String)| pair_text(p)),
        }
    }
}

/// Information about a component's connection on another net
#[derive(Debug, Clone)]
pub struct OtherNetInfo {
    /// Name of the other net
    pub net_name: String,
    /// Net scope
    pub scope: NetScope,
    /// If there's exactly one other pin (not this component), its "ref:pin" string
    pub single_other_pin: Option<String>,
}

/// The net holds a pin of `reference` and is not the net named `current`.
pub open spec fn is_other_net(n: NetDataView, reference: Seq<char>, current: Option<Seq<char>>) -> bool {
    &&& n.name != current
    &&& exists|j: int| 0 <= j < n.pins.len() && n.pins[j].0 == reference
}

/// `k` is the first net that is another net of `reference`.
pub open spec fn is_first_other_net(
    nets: Seq<NetDataView>,
    reference: Seq<char>,
    current: Option<Seq<char>>,
    k: int,
) -> bool {
    &&& 0 <= k < nets.len()
    &&& is_other_net(nets[k], reference, current)
    &&& forall|j: int| 0 <= j < k ==> !is_other_net(nets[j], reference, current)
}

/// The pins of a net that belong to another component than `reference`.
pub open spec fn pins_of_others(pins: Seq<(Seq<char>, Seq<char>)>, reference: Seq<char>) -> Seq<
    (Seq<char>, Seq<char>),
>
    decreases pins.len(),
{
    if pins.len() == 0 {
        seq![]
    } else {
        let rest = pins_of_others(pins.drop_last(), reference);
        if pins.last().0 != reference {
            rest.push(pins.last())
        } else {
            rest
        }
    }
}

/// What is known of a component's other net: its name (empty when unnamed),
/// scope, and the `REF:PIN` text of the only other pin on it, if it has
/// exactly one.
pub open spec fn other_net_info_spec(
    nets: Seq<NetDataView>,
    reference: Seq<char>,
    current: Option<Seq<char>>,
) -> Option<(Seq<char>, NetScope, Option<Seq<char>>)> {
    if exists|k: int| is_first_other_net(nets, reference, current, k) {
        let k = choose|k: int| is_first_other_net(nets, reference, current, k);
        let others = pins_of_others(nets[k].pins, reference);
        Some(
            (
                match nets[k].name {
                    Some(n) => n,
                    None => Seq::empty(),
                },
                nets[k].scope,
                if others.len() == 1 {
                    Some(others[0].0 + seq![':'] + others[0].1)
                } else {
                    None
                },
            ),
        )
    } else {
        None
    }
}

fn opt_str_eq(a: &Option<String>, b: Option<&str>) -> (r: bool)
    ensures
        r == (opt_text(*a) == match b {
            Some(s) => Some(s@),
            None => None::<Seq<char>>,
        }),
{
    match (a, b) {
        (Some(x), Some(y)) => str_eq(x.as_str(), y),
        (None, None) => true,
        _ => false,
    }
}

/// Find detailed info about the net that the other pin of a 2-pin component is connected to
pub fn find_other_pin_net_info(nets: &Vec<NetData>, reference: &str, current_net: Option<&str>) -> (r:
    Option<OtherNetInfo>)
    ensures
        ({
            let cur = match current_net {
                Some(s) => Some(s@),
                None => None::<Seq<char>>,
            };
            match other_net_info_spec(nets@.map_values(|n: NetData| n@), reference@, cur) {
                Some(info) => r matches Some(o) && o.net_name@ == info.0 && o.scope == info.1
                    && opt_text(o.single_other_pin) == info.2,
                None => r is None,
            }
        }),
{
    let ghost cur = match current_net {
        Some(s) => Some(s@),
        None => None::<Seq<char>>,
    };
    let ghost views = nets@.map_values(|n: NetData| n@);
    let mut k: usize = 0;
    while k < nets.len()
        invariant
            k <= nets@.len(),
            views == nets@.map_values(|n: NetData| n@),
            cur == match current_net {
                Some(s) => Some(s@),
                None => None::<Seq<char>>,
            },
            forall|j: int| 0 <= j < k ==> !is_other_net(#[trigger] views[j], reference@, cur),
        decreases nets@.len() - k,
    {
        let net = &nets[k];
        let ghost nv = views[k as int];
        assert(nv == net@);
        if opt_str_eq(&net.name, current_net) {
            assert(views[k as int].name == cur);
            k = k + 1;
            continue;
        }
        assert(nv.name != cur);
        // Does this net hold a pin of the component, and who else is on it?
        let mut has_component = false;
        let mut count: usize = 0;
        let mut first: usize = 0;
        let mut i: usize = 0;
        while i < net.pins.len()
            invariant
                i <= net.pins@.len(),
                count <= i,
                nv == net@,
                has_component == exists|j: int| 0 <= j < i && nv.pins[j].0 == reference@,
                count == pins_of_others(nv.pins.take(i as int), reference@).len(),
                count > 0 ==> first < i && pins_of_others(nv.pins.take(i as int), reference@)[0]
                    == nv.pins[first as int],
            decreases net.pins@.len() - i,
        {
            assert(nv.pins.take(i + 1).drop_last() == nv.pins.take(i as int));
            assert(nv.pins[i as int] == pair_text(net.pins@[i as int]));
            if str_eq(net.pins[i].0.as_str(), reference) {
                has_component = true;
            } else {
                if count == 0 {
                    first = i;
                }
                count = count + 1;
            }
            i = i + 1;
        }
        assert(nv.pins.take(i as int) == nv.pins);
        if has_component {
            let ghost others = pins_of_others(nv.pins, reference@);
            assert(is_other_net(nv, reference@, cur));
            assert(is_first_other_net(views, reference@, cur, k as int));
            assert forall|q: int| is_first_other_net(views, reference@, cur, q) implies q == k by {
                if q < k {
                } else if q > k {
                    assert(!is_other_net(views[k as int], reference@, cur));
                }
            }
            let single_other_pin = if count == 1 {
                let mut s = net.pins[first].0.clone();
                push_char(&mut s, ':');
                s.append(net.pins[first].1.as_str());
                assert(others[0] == pair_text(net.pins@[first as int]));
                Some(s)
            } else {
                None
            };
            let net_name = match &net.name {
                Some(n) => n.clone(),
                None => String::new(),
            };
            return Some(OtherNetInfo { net_name, scope: net.scope, single_other_pin });
        }
        k = k + 1;
    }
    assert forall|q: int| !is_first_other_net(views, reference@, cur, q) by {
        if 0 <= q < views.len() {
            assert(!is_other_net(views[q], reference@, cur));
        }
    }
    None
}

} // verus!
