//! What a connect command does with its endpoints: which checks it makes, and whether
//! it places net labels, one wire, or a star of wires from the first pin.
use vstd::prelude::*;
use crate::commands::{CommandError, ConnectCommand, ConnectOutput};
use crate::endpoint::{
    ConnectionEndpoint, EndpointView, is_power_net_name, is_power_net_upper_spec,
    parse_endpoint_spec,
};
use crate::component_edit::{first_with_reference, pin_index, SchematicItems};
use crate::label_edit::{added_label, trunc_rem, PlacedLabel};
use crate::outline_nets::{pairs_view, GridPoint};
use crate::schematic::{LabelShape, RoutingMode};
use crate::text::{trim, uppercase};
use crate::wire_edit::{routed_points, snap_point, snap_point_to_grid};

verus! {

/// How the pins of a connection are joined.
#[derive(Debug, Clone)]
pub enum ConnectStrategy {
    /// A label of the net at each pin: a global label for a power net.
    Labels { net: String, global: bool },
    /// One wire between the two pins.
    Wire,
    /// Wires from the first pin to each other pin, with a junction at the first pin
    /// when more than two pins meet there.
    Star { junction: bool },
}

/// The pins to connect, in order, and how.
#[derive(Debug, Clone)]
pub struct ConnectPlan {
    pub pins: Vec<(String, String)>,
    pub strategy: ConnectStrategy,
}

/// The first endpoint text from `k` on that is not an endpoint.
pub open spec fn first_invalid(eps: Seq<Seq<char>>, k: int) -> Option<int>
    decreases eps.len() - k,
{
    if k < 0 || k >= eps.len() {
        None
    } else if parse_endpoint_spec(eps[k]) is None {
        Some(k)
    } else {
        first_invalid(eps, k + 1)
    }
}

/// The pins, in order, and the net of parsed endpoints; none when two nets are given.
pub open spec fn split_endpoints(views: Seq<EndpointView>) -> Option<(Seq<(Seq<char>, Seq<char>)>, Option<Seq<char>>)>
    decreases views.len(),
{
    if views.len() == 0 {
        Some((Seq::empty(), None))
    } else {
        match split_endpoints(views.drop_last()) {
            None => None,
            Some((pins, net)) => match views.last() {
                EndpointView::Pin { reference, pin } => Some((pins.push((reference, pin)), net)),
                EndpointView::Net(name) => if net is Some {
                    None
                } else {
                    Some((pins, Some(name)))
                },
            },
        }
    }
}

/// The endpoints that the texts denote (for texts that all denote one).
pub open spec fn parsed_views(eps: Seq<Seq<char>>) -> Seq<EndpointView> {
    eps.map_values(|e: Seq<char>| parse_endpoint_spec(e).unwrap())
}

pub open spec fn other_message(r: Result<ConnectPlan, CommandError>, m: Seq<char>) -> bool {
    r matches Err(CommandError::Other(msg)) && msg@ == m
}

pub open spec fn invalid_endpoint_message(text: Seq<char>) -> Seq<char> {
    "Invalid endpoint '"@ + trim(text) + "'. Use 'REF:PIN' for pins or '&NET' for net labels"@
}

/// What planning a connection of the endpoint texts gives: the checks in order (at
/// least two endpoints, each one valid, at most one net, at least one pin), then the
/// plan.
pub open spec fn plan_spec(eps: Seq<Seq<char>>, r: Result<ConnectPlan, CommandError>) -> bool {
    if eps.len() < 2 {
        other_message(r, "At least 2 endpoints are required for a connection"@)
    } else {
        match first_invalid(eps, 0) {
            Some(i) => other_message(r, invalid_endpoint_message(eps[i])),
            None => match split_endpoints(parsed_views(eps)) {
                None => other_message(r, "Only one net label allowed per connection"@),
                Some((pins, net)) => if pins.len() == 0 {
                    other_message(r, "At least one pin endpoint is required"@)
                } else {
                    &&& r matches Ok(plan)
                    &&& pairs_view(plan.pins@) == pins
                    &&& match net {
                        Some(n) => {
                            &&& plan.strategy matches ConnectStrategy::Labels { net: m, global }
                            &&& m@ == n
                            &&& global == is_power_net_upper_spec(uppercase(n))
                        },
                        None => if pins.len() == 2 {
                            plan.strategy is Wire
                        } else {
                            &&& plan.strategy matches ConnectStrategy::Star { junction }
                            &&& junction == (pins.len() > 2)
                        },
                    }
                },
            },
        }
    }
}

impl ConnectCommand {
    /// Check the endpoints and decide how to connect them: at least two endpoints, all
    /// valid, at most one net and at least one pin; with a net, a label at each pin;
    /// with two pins, a wire; with more, a star from the first pin.
    pub fn plan(&self) -> (r: Result<ConnectPlan, CommandError>)
        ensures
            plan_spec(self.endpoints@.map_values(|e: String| e@), r),
    {
        let ghost eps = self.endpoints@.map_values(|e: String| e@);
        let n = self.endpoints.len();
        if n < 2 {
            return Err(CommandError::Other(String::from_str("At least 2 endpoints are required for a connection")));
        }
        let mut parsed: Vec<ConnectionEndpoint> = Vec::new();
        let mut k: usize = 0;
        while k < n
            invariant
                2 <= n == self.endpoints@.len() == eps.len(),
                eps == self.endpoints@.map_values(|e: String| e@),
                k <= n,
                parsed@.len() == k,
                first_invalid(eps, 0) == first_invalid(eps, k as int),
                forall|j: int| 0 <= j < k ==> parse_endpoint_spec(eps[j]) == Some(#[trigger] parsed@[j]@),
            decreases n - k,
        {
            assert(eps[k as int] == self.endpoints@[k as int]@);
            match ConnectionEndpoint::parse(self.endpoints[k].as_str()) {
                Ok(e) => {
                    parsed.push(e);
                },
                Err(e) => {
                    assert(first_invalid(eps, k as int) == Some(k as int));
                    return Err(CommandError::Other(e.to_string()));
                },
            }
            k = k + 1;
        }
        assert(first_invalid(eps, n as int) is None);
        let ghost views = parsed_views(eps);
        assert forall|j: int| 0 <= j < n implies views[j] == #[trigger] parsed@[j]@ by {}
        let mut pins: Vec<(String, String)> = Vec::new();
        let mut net: Option<String> = None;
        let mut k: usize = 0;
        assert(views.take(0) == Seq::<EndpointView>::empty());
        while k < n
            invariant
                n == parsed@.len() == views.len(),
                2 <= n == eps.len(),
                eps == self.endpoints@.map_values(|e: String| e@),
                views == parsed_views(eps),
                first_invalid(eps, 0) is None,
                k <= n,
                forall|j: int| 0 <= j < n ==> views[j] == #[trigger] parsed@[j]@,
                split_endpoints(views.take(k as int)) is Some,
                split_endpoints(views.take(k as int)).unwrap().0 == pairs_view(pins@),
                match split_endpoints(views.take(k as int)).unwrap().1 {
                    Some(x) => net is Some && net.unwrap()@ == x,
                    None => net is None,
                },
            decreases n - k,
        {
            assert(views.take(k + 1).drop_last() == views.take(k as int));
            assert(views.take(k + 1).last() == parsed@[k as int]@);
            match &parsed[k] {
                ConnectionEndpoint::Pin { reference, pin } => {
                    let pr = (reference.clone(), pin.clone());
                    assert(pairs_view(pins@.push(pr)) == pairs_view(pins@).push((reference@, pin@)));
                    pins.push(pr);
                },
                ConnectionEndpoint::Net(name) => {
                    if net.is_some() {
                        proof {
                            assert(split_endpoints(views.take(k + 1)) is None);
                            lemma_two_nets_stay(views, k as int + 1, n as int);
                            assert(views.take(n as int) == views);
                        }
                        return Err(CommandError::Other(String::from_str("Only one net label allowed per connection")));
                    }
                    net = Some(name.clone());
                },
            }
            k = k + 1;
        }
        assert(views.take(n as int) == views);
        if pins.len() == 0 {
            return Err(CommandError::Other(String::from_str("At least one pin endpoint is required")));
        }
        let strategy = match net {
            Some(name) => {
                let global = is_power_net_name(name.as_str());
                ConnectStrategy::Labels { net: name, global }
            },
            None => if pins.len() == 2 {
                ConnectStrategy::Wire
            } else {
                ConnectStrategy::Star { junction: pins.len() > 2 }
            },
        };
        Ok(ConnectPlan { pins, strategy })
    }
}

/// Once two nets are among the first `k` endpoints, they stay among the first `m`.
proof fn lemma_two_nets_stay(views: Seq<EndpointView>, k: int, m: int)
    requires
        0 <= k <= m <= views.len(),
        split_endpoints(views.take(k)) is None,
    ensures
        split_endpoints(views.take(m)) is None,
    decreases m - k,
{
    if k < m {
        assert(views.take(k + 1).drop_last() == views.take(k));
        lemma_two_nets_stay(views, k + 1, m);
    }
}

impl ConnectPlan {
    /// What connecting by this plan reports: the wires and junctions it adds, and the
    /// net labelled.
    pub fn output(&self) -> (o: ConnectOutput)
        ensures
            match self.strategy {
                ConnectStrategy::Labels { net, .. } => {
                    &&& o.wires_created == 0
                    &&& o.junctions_created == 0
                    &&& o.labels_created@.len() == 1
                    &&& o.labels_created@[0]@ == net@
                    &&& o.net_name matches Some(m)
                    &&& m@ == net@
                },
                ConnectStrategy::Wire => {
                    &&& o.wires_created == 1
                    &&& o.junctions_created == 0
                    &&& o.labels_created@.len() == 0
                    &&& o.net_name is None
                },
                ConnectStrategy::Star { junction } => {
                    &&& o.wires_created == (if self.pins@.len() > 0 {
                        self.pins@.len() - 1
                    } else {
                        0
                    })
                    &&& o.junctions_created == (if junction {
                        1int
                    } else {
                        0int
                    })
                    &&& o.labels_created@.len() == 0
                    &&& o.net_name is None
                },
            },
    {
        match &self.strategy {
            ConnectStrategy::Labels { net, .. } => {
                let mut labels: Vec<String> = Vec::new();
                labels.push(net.clone());
                ConnectOutput {
                    wires_created: 0,
                    junctions_created: 0,
                    labels_created: labels,
                    net_name: Some(net.clone()),
                }
            },
            ConnectStrategy::Wire => ConnectOutput {
                wires_created: 1,
                junctions_created: 0,
                labels_created: Vec::new(),
                net_name: None,
            },
            ConnectStrategy::Star { junction } => ConnectOutput {
                wires_created: if self.pins.len() > 0 {
                    self.pins.len() - 1
                } else {
                    0
                },
                junctions_created: if *junction {
                    1
                } else {
                    0
                },
                labels_created: Vec::new(),
                net_name: None,
            },
        }
    }
}

/// The message of the first check that the endpoint texts fail, if any: at least two
/// endpoints, each one valid, at most one net, at least one pin.
pub open spec fn plan_error(eps: Seq<Seq<char>>) -> Option<Seq<char>> {
    if eps.len() < 2 {
        Some("At least 2 endpoints are required for a connection"@)
    } else {
        match first_invalid(eps, 0) {
            Some(i) => Some(invalid_endpoint_message(eps[i])),
            None => match split_endpoints(parsed_views(eps)) {
                None => Some("Only one net label allowed per connection"@),
                Some((pins, _)) => if pins.len() == 0 {
                    Some("At least one pin endpoint is required"@)
                } else {
                    None
                },
            },
        }
    }
}

/// Where a pin endpoint lies and the direction its pin points: the first pin of that
/// number or name on the first component with the reference.
pub open spec fn pin_place(items: SchematicItems, reference: Seq<char>, pin: Seq<char>) -> Option<(GridPoint, i32)> {
    match first_with_reference(items.components@, reference, 0) {
        Some(i) => match pin_index(items.components@[i].pins@, pin, 0) {
            Some(k) => Some((items.components@[i].pins@[k].position, items.components@[i].pins@[k].angle)),
            None => None,
        },
        None => None,
    }
}

/// The first pin endpoint from `k` on that lies nowhere.
pub open spec fn first_unplaced(items: SchematicItems, pins: Seq<(Seq<char>, Seq<char>)>, k: int) -> Option<int>
    decreases pins.len() - k,
{
    if k < 0 || k >= pins.len() {
        None
    } else if pin_place(items, pins[k].0, pins[k].1) is None {
        Some(k)
    } else {
        first_unplaced(items, pins, k + 1)
    }
}

/// Where the pin endpoints lie, in order.
pub open spec fn pin_places(items: SchematicItems, pins: Seq<(Seq<char>, Seq<char>)>) -> Seq<(GridPoint, i32)> {
    pins.map_values(|p: (Seq<char>, Seq<char>)| pin_place(items, p.0, p.1).unwrap())
}

/// The direction of a net label at a pin: the pin's direction reduced to [0, 360)
/// when it is a quarter turn or negative; any other direction unchanged.
pub open spec fn label_angle_from_pin_spec(a: int) -> int {
    let r = trunc_rem(a, 360);
    if r == 0 || r == 90 || r == 180 || r == 270 {
        r
    } else if r < 0 {
        r + 360
    } else {
        a
    }
}

fn label_angle_from_pin(pin_angle: i32) -> (r: i32)
    ensures
        r == label_angle_from_pin_spec(pin_angle as int),
{
    let a = pin_angle as i64;
    let r: i64 = if a >= 0 {
        a % 360
    } else {
        -((-a) % 360)
    };
    if r == 0 || r == 90 || r == 180 || r == 270 {
        r as i32
    } else if r < 0 {
        (r + 360) as i32
    } else {
        pin_angle
    }
}

/// `after` is `before` with a label of `net` at each place, in order, facing as
/// `label_angle_from_pin_spec` the pin, with the given shape.
pub open spec fn labels_added(
    before: Seq<PlacedLabel>,
    after: Seq<PlacedLabel>,
    net: Seq<char>,
    places: Seq<(GridPoint, i32)>,
    shape: Option<LabelShape>,
) -> bool {
    &&& after.len() == before.len() + places.len()
    &&& after.take(before.len() as int) == before
    &&& forall|k: int|
        0 <= k < places.len() ==> added_label(
            #[trigger] after[before.len() + k],
            net,
            places[k].0,
            label_angle_from_pin_spec(places[k].1 as int),
            shape,
        )
}

/// `after` is `before` with a wire from `hub` to each place after the first, in order,
/// routed horizontally first.
pub open spec fn wires_from_hub(
    before: Seq<Vec<GridPoint>>,
    after: Seq<Vec<GridPoint>>,
    hub: GridPoint,
    places: Seq<(GridPoint, i32)>,
) -> bool {
    &&& after.len() == before.len() + places.len() - 1
    &&& after.take(before.len() as int) == before
    &&& forall|k: int|
        1 <= k < places.len() ==> (#[trigger] after[before.len() + k - 1])@ == routed_points(
            hub,
            places[k].0,
            RoutingMode::Orthogonal,
        )
}

/// Connecting the pins (all found) and the net takes `s` to `t` with result `r`: with a
/// net, a label of it at each pin (global, of passive shape, for a power net); with two
/// pins, one wire between them; otherwise a wire from the first pin's grid point to each
/// other pin, with a junction there when more than two pins meet.
pub open spec fn connected(
    s: SchematicItems,
    t: SchematicItems,
    pins: Seq<(Seq<char>, Seq<char>)>,
    net: Option<Seq<char>>,
    r: Result<ConnectOutput, CommandError>,
) -> bool {
    let pl = pin_places(s, pins);
    &&& t.lib_symbols == s.lib_symbols
    &&& t.components == s.components
    &&& r matches Ok(o)
    &&& match net {
        Some(n) => {
            let global = is_power_net_upper_spec(uppercase(n));
            &&& t.wires == s.wires
            &&& t.junctions == s.junctions
            &&& if global {
                t.labels == s.labels && labels_added(
                    s.global_labels@,
                    t.global_labels@,
                    n,
                    pl,
                    Some(LabelShape::Passive),
                )
            } else {
                t.global_labels == s.global_labels && labels_added(s.labels@, t.labels@, n, pl, None)
            }
            &&& o.wires_created == 0 && o.junctions_created == 0
            &&& o.labels_created@.len() == 1 && o.labels_created@[0]@ == n
            &&& o.net_name matches Some(m) && m@ == n
        },
        None => {
            &&& t.labels == s.labels
            &&& t.global_labels == s.global_labels
            &&& o.labels_created@.len() == 0
            &&& o.net_name is None
            &&& if pins.len() == 2 {
                &&& t.junctions == s.junctions
                &&& t.wires@.len() == s.wires@.len() + 1
                &&& t.wires@.drop_last() == s.wires@
                &&& t.wires@.last()@ == routed_points(pl[0].0, pl[1].0, RoutingMode::Orthogonal)
                &&& o.wires_created == 1 && o.junctions_created == 0
            } else {
                let hub = snap_point(pl[0].0);
                &&& t.junctions@ == if pins.len() > 2 {
                    s.junctions@.push(snap_point(hub))
                } else {
                    s.junctions@
                }
                &&& wires_from_hub(s.wires@, t.wires@, hub, pl)
                &&& o.wires_created == pins.len() - 1
                &&& o.junctions_created == if pins.len() > 2 {
                    1int
                } else {
                    0int
                }
            }
        },
    }
}

/// What connecting the endpoint texts does to `s`, giving `t` and `r`: the first failed
/// check's message, else the first pin that lies nowhere, is the error and nothing
/// changes; otherwise as `connected`.
pub open spec fn connect_outcome(
    eps: Seq<Seq<char>>,
    s: SchematicItems,
    t: SchematicItems,
    r: Result<ConnectOutput, CommandError>,
) -> bool {
    match plan_error(eps) {
        Some(m) => {
            &&& t == s
            &&& r matches Err(CommandError::Other(msg))
            &&& msg@ == m
        },
        None => {
            let (pins, net) = split_endpoints(parsed_views(eps)).unwrap();
            match first_unplaced(s, pins, 0) {
                Some(i) => {
                    &&& t == s
                    &&& r matches Err(e)
                    &&& match first_with_reference(s.components@, pins[i].0, 0) {
                        None => e matches CommandError::SymbolNotFound(x) && x@ == pins[i].0,
                        Some(_) => e matches CommandError::PinNotFound { reference: a, pin: b } && a@
                            == pins[i].0 && b@ == pins[i].1,
                    }
                },
                None => connected(s, t, pins, net, r),
            }
        },
    }
}

impl ConnectCommand {
    /// Connect the endpoints, as `connect_outcome` states.
    #[verifier::rlimit(40)]
    pub fn execute(self, items: &mut SchematicItems) -> (r: Result<ConnectOutput, CommandError>)
        ensures
            connect_outcome(self.endpoints@.map_values(|e: String| e@), *old(items), *final(items), r),
    {
        let ghost eps = self.endpoints@.map_values(|e: String| e@);
        let plan = match self.plan() {
            Ok(p) => p,
            Err(e) => return Err(e),
        };
        let ghost pins = pairs_view(plan.pins@);
        let ghost s = *items;
        assert(plan_error(eps) is None);
        assert(split_endpoints(parsed_views(eps)).unwrap().0 == pins);
        let mut places: Vec<(GridPoint, i32)> = Vec::new();
        let mut k: usize = 0;
        while k < plan.pins.len()
            invariant
                k <= plan.pins@.len(),
                pins == pairs_view(plan.pins@),
                eps == self.endpoints@.map_values(|e: String| e@),
                plan_error(eps) is None,
                split_endpoints(parsed_views(eps)).unwrap().0 == pins,
                *items == s,
                first_unplaced(s, pins, 0) == first_unplaced(s, pins, k as int),
                places@ == pin_places(s, pins).take(k as int),
            decreases plan.pins@.len() - k,
        {
            let reference = &plan.pins[k].0;
            let pin = &plan.pins[k].1;
            match items.find_symbol_by_reference(reference.as_str()) {
                Some(c) => match c.find_pin(pin.as_str()) {
                    Some(p) => {
                        assert(pins[k as int] == (reference@, pin@));
                        places.push((p.position, p.angle));
                        assert(places@ =~= pin_places(s, pins).take(k + 1));
                    },
                    None => {
                        assert(pins[k as int] == (reference@, pin@));
                        assert(first_unplaced(s, pins, k as int) == Some(k as int));
                        return Err(CommandError::PinNotFound { reference: reference.clone(), pin: pin.clone() });
                    },
                },
                None => {
                    assert(pins[k as int] == (reference@, pin@));
                    assert(first_unplaced(s, pins, k as int) == Some(k as int));
                    return Err(CommandError::SymbolNotFound(reference.clone()));
                },
            }
            k = k + 1;
        }
        assert(places@ =~= pin_places(s, pins));
        let out = plan.output();
        match &plan.strategy {
            ConnectStrategy::Labels { net, global } => {
                assert(s.labels@.take(s.labels@.len() as int) =~= s.labels@);
                assert(s.global_labels@.take(s.global_labels@.len() as int) =~= s.global_labels@);
                let mut j: usize = 0;
                while j < places.len()
                    invariant
                        j <= places@.len(),
                        items.lib_symbols == s.lib_symbols,
                        items.components == s.components,
                        items.wires == s.wires,
                        items.junctions == s.junctions,
                        if *global {
                            items.labels == s.labels && labels_added(
                                s.global_labels@,
                                items.global_labels@,
                                net@,
                                places@.take(j as int),
                                Some(LabelShape::Passive),
                            )
                        } else {
                            items.global_labels == s.global_labels && labels_added(
                                s.labels@,
                                items.labels@,
                                net@,
                                places@.take(j as int),
                                None,
                            )
                        },
                    decreases places@.len() - j,
                {
                    let (at, a) = places[j];
                    let angle = label_angle_from_pin(a);
                    let ghost pre = *items;
                    let ghost done = places@.take(j as int);
                    let ghost next = places@.take(j + 1);
                    assert(next == done.push(places@[j as int]));
                    if *global {
                        items.add_global_label(net.as_str(), at, angle, LabelShape::Passive);
                        proof {
                            let b = s.global_labels@;
                            let after = items.global_labels@;
                            assert(after.take(b.len() as int) =~= pre.global_labels@.take(b.len() as int));
                            assert forall|k: int| 0 <= k < next.len() implies added_label(
                                #[trigger] after[b.len() + k],
                                net@,
                                next[k].0,
                                label_angle_from_pin_spec(next[k].1 as int),
                                Some(LabelShape::Passive),
                            ) by {
                                if k < done.len() {
                                    assert(after[b.len() + k] == pre.global_labels@[b.len() + k]);
                                }
                            }
                        }
                    } else {
                        items.add_label(net.as_str(), at, angle);
                        proof {
                            let b = s.labels@;
                            let after = items.labels@;
                            assert(after.take(b.len() as int) =~= pre.labels@.take(b.len() as int));
                            assert forall|k: int| 0 <= k < next.len() implies added_label(
                                #[trigger] after[b.len() + k],
                                net@,
                                next[k].0,
                                label_angle_from_pin_spec(next[k].1 as int),
                                None,
                            ) by {
                                if k < done.len() {
                                    assert(after[b.len() + k] == pre.labels@[b.len() + k]);
                                }
                            }
                        }
                    }
                    j = j + 1;
                }
                assert(places@.take(places@.len() as int) == places@);
            },
            ConnectStrategy::Wire => {
                items.add_wire_routed(places[0].0, places[1].0, RoutingMode::Orthogonal);
            },
            ConnectStrategy::Star { junction } => {
                let hub = snap_point_to_grid(places[0].0);
                assert(hub == snap_point(places@[0].0));
                if *junction {
                    items.add_junction(hub);
                }
                let ghost mid = *items;
                assert(s.wires@.take(s.wires@.len() as int) =~= s.wires@);
                let mut j: usize = 1;
                while j < places.len()
                    invariant
                        1 <= j <= places@.len(),
                        items.lib_symbols == s.lib_symbols,
                        items.components == s.components,
                        items.labels == s.labels,
                        items.global_labels == s.global_labels,
                        items.junctions == mid.junctions,
                        wires_from_hub(s.wires@, items.wires@, hub, places@.take(j as int)),
                    decreases places@.len() - j,
                {
                    let ghost pre = items.wires@;
                    let ghost done = places@.take(j as int);
                    let ghost next = places@.take(j + 1);
                    assert(next == done.push(places@[j as int]));
                    items.add_wire_routed(hub, places[j].0, RoutingMode::Orthogonal);
                    proof {
                        let b = s.wires@;
                        let after = items.wires@;
                        assert(after.take(b.len() as int) =~= pre.take(b.len() as int));
                        assert forall|k: int| 1 <= k < next.len() implies (#[trigger] after[b.len() + k - 1])@
                            == routed_points(hub, next[k].0, RoutingMode::Orthogonal) by {
                            if k < done.len() {
                                assert(after[b.len() + k - 1] == pre[b.len() + k - 1]);
                            }
                        }
                    }
                    j = j + 1;
                }
                assert(places@.take(places@.len() as int) == places@);
            },
        }
        Ok(out)
    }
}

proof fn lemma_quarter_rem(a: int)
    requires
        a >= 0,
        a % 90 == 0,
    ensures
        a % 360 == 0 || a % 360 == 90 || a % 360 == 180 || a % 360 == 270,
{
    let q = a / 360;
    let m = a % 360;
    assert(a == 360 * q + m && 0 <= m < 360) by {
        vstd::arithmetic::div_mod::lemma_fundamental_div_mod(a, 360);
    }
    assert(a == 90 * (4 * q) + m) by (nonlinear_arith)
        requires
            a == 360 * q + m,
    ;
    assert(m % 90 == 0) by {
        vstd::arithmetic::div_mod::lemma_mod_multiples_vanish(4 * q, m, 90);
    }
    assert(m == 0 || m == 90 || m == 180 || m == 270) by {
        let t = m / 90;
        vstd::arithmetic::div_mod::lemma_fundamental_div_mod(m, 90);
        assert(m == 90 * t);
        assert(0 <= t < 4) by (nonlinear_arith)
            requires
                m == 90 * t,
                0 <= m < 360,
        ;
    }
}

/// The direction of a label at a pin pointing along a whole number of quarter turns is
/// the pin's direction brought into [0, 360): the label faces the way the pin points.
pub proof fn lemma_label_angle_of_quarter_turn(a: int)
    requires
        a % 90 == 0,
    ensures
        label_angle_from_pin_spec(a) == a % 360,
        0 <= label_angle_from_pin_spec(a) < 360,
{
    if a >= 0 {
        lemma_quarter_rem(a);
    } else {
        let b = -a;
        assert(b % 90 == 0) by {
            vstd::arithmetic::div_mod::lemma_fundamental_div_mod(a, 90);
            let q = a / 90;
            assert(b == 90 * (-q)) by (nonlinear_arith)
                requires
                    a == 90 * q + 0,
                    b == -a,
            ;
            vstd::arithmetic::div_mod::lemma_mod_multiples_basic(-q, 90);
        }
        lemma_quarter_rem(b);
        let m = b % 360;
        let q = b / 360;
        assert(b == 360 * q + m) by {
            vstd::arithmetic::div_mod::lemma_fundamental_div_mod(b, 360);
        }
        if m == 0 {
            assert(a == 360 * (-q)) by (nonlinear_arith)
                requires
                    b == 360 * q,
                    a == -b,
            ;
            vstd::arithmetic::div_mod::lemma_mod_multiples_basic(-q, 360);
        } else {
            assert(a == 360 * (-q - 1) + (360 - m)) by (nonlinear_arith)
                requires
                    b == 360 * q + m,
                    a == -b,
            ;
            vstd::arithmetic::div_mod::lemma_mod_multiples_vanish(-q - 1, 360 - m, 360);
            vstd::arithmetic::div_mod::lemma_small_mod((360 - m) as nat, 360);
        }
    }
}

/// A label that connecting places at a pin faces the way the pin points: for a pin
/// along a whole number of quarter turns, its direction is the pin's brought into
/// [0, 360).
pub proof fn lemma_connect_label_faces_pin(
    before: Seq<PlacedLabel>,
    after: Seq<PlacedLabel>,
    net: Seq<char>,
    places: Seq<(GridPoint, i32)>,
    shape: Option<LabelShape>,
    k: int,
)
    requires
        labels_added(before, after, net, places, shape),
        0 <= k < places.len(),
        (places[k].1 as int) % 90 == 0,
    ensures
        after[before.len() + k].angle == (places[k].1 as int) % 360,
        after[before.len() + k].text@ == net,
{
    lemma_label_angle_of_quarter_turn(places[k].1 as int);
    assert(added_label(after[before.len() + k], net, places[k].0, label_angle_from_pin_spec(places[k].1 as int), shape));
}

} // verus!
