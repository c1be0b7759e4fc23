//! Folding two-pin passives into the nets they serve: which components merge,
//! where, and the connections that come out.
use vstd::prelude::*;
use crate::semantic_outline::{
    ComponentType, MergedTarget, MergedTargetView, NetData, NetDataView, NetScope, NetType,
    SemanticConnection, classify_net_spec, find_other_pin_net_info,
    merged_target_spec, other_net_info_spec, parse_merged_target, target_has_view,
    connection_text,
};
use crate::text::str_eq;
use crate::ordering::{seq_lt, sort_by, lemma_insert_at, str_lt};

verus! {

/// The texts of a merge target.
pub enum TargetView {
    Net { name: Seq<char>, scope: NetScope },
    Pin { reference: Seq<char>, pin: Seq<char> },
    Merged(Box<ConnectionView>),
}

/// The texts of a semantic connection.
pub enum ConnectionView {
    Pin { reference: Seq<char>, pin: Seq<char> },
    Net { name: Seq<char>, scope: NetScope },
    Resistor { reference: Seq<char>, value: Seq<char>, target: TargetView },
    Capacitor { reference: Seq<char>, value: Seq<char>, polarized: bool, target: TargetView },
    Switch { reference: Seq<char>, target: TargetView },
}

pub open spec fn target_view(t: MergedTarget) -> TargetView
    decreases t,
{
    match t {
        MergedTarget::Net { name, scope } => TargetView::Net { name: name@, scope },
        MergedTarget::Pin { reference, pin } => TargetView::Pin { reference: reference@, pin: pin@ },
        MergedTarget::Merged(inner) => TargetView::Merged(Box::new(connection_view(*inner))),
    }
}

pub open spec fn connection_view(c: SemanticConnection) -> ConnectionView
    decreases c,
{
    match c {
        SemanticConnection::Pin { reference, pin } => ConnectionView::Pin {
            reference: reference@,
            pin: pin@,
        },
        SemanticConnection::Net { name, scope } => ConnectionView::Net { name: name@, scope },
        SemanticConnection::MergedResistor { reference, value, target } => ConnectionView::Resistor {
            reference: reference@,
            value: value@,
            target: target_view(target),
        },
        SemanticConnection::MergedCapacitor { reference, value, polarized, target } =>
            ConnectionView::Capacitor {
            reference: reference@,
            value: value@,
            polarized,
            target: target_view(target),
        },
        SemanticConnection::MergedSwitch { reference, target } => ConnectionView::Switch {
            reference: reference@,
            target: target_view(target),
        },
    }
}

/// A net or pin target shape as a target view.
pub open spec fn shape_view(v: MergedTargetView) -> TargetView {
    match v {
        MergedTargetView::Net { name, scope } => TargetView::Net { name, scope },
        MergedTargetView::Pin { reference, pin } => TargetView::Pin { reference, pin },
    }
}

/// A component as seen while merging.
#[derive(Debug, Clone)]
pub struct ComponentData {
    pub reference: String,
    pub lib_id: String,
    pub value: String,
    /// Pin names (sorted, without repeats)
    pub pins: Vec<String>,
    /// Pin number to pin name
    pub pin_num_to_name: Vec<(String, String)>,
    pub description: Option<String>,
    pub component_type: ComponentType,
}

/// The texts of a component that merging reads.
pub struct ComponentView {
    pub reference: Seq<char>,
    pub value: Seq<char>,
    pub pin_num_to_name: Seq<(Seq<char>, Seq<char>)>,
    pub component_type: ComponentType,
}

impl View for ComponentData {
    type V = ComponentView;

    open spec fn view(&self) -> ComponentView {
        ComponentView {
            reference: self.reference@,
            value: self.value@,
            pin_num_to_name: self.pin_num_to_name@.map_values(
                |p: (String, String)| crate::semantic_outline::pair_text(p),
            ),
            component_type: self.component_type,
        }
    }
}

/// The last component with the given reference (a later component of the same
/// reference replaces an earlier one).
pub open spec fn lookup_component(comps: Seq<ComponentView>, reference: Seq<char>) -> Option<
    ComponentView,
>
    decreases comps.len(),
{
    if comps.len() == 0 {
        None
    } else if comps.last().reference == reference {
        Some(comps.last())
    } else {
        lookup_component(comps.drop_last(), reference)
    }
}

pub open spec fn is_mergeable(t: ComponentType) -> bool {
    t is Resistor || t is Capacitor || t is Inductor || t is Switch
}

pub open spec fn is_power_or_ground(t: NetType) -> bool {
    t == NetType::Power || t == NetType::Ground
}

/// Whether a component between this net (of type `this`, if named) and its other net
/// (of type `other`) is folded into this net: always away from power and ground,
/// towards ground's counterpart among supplies, and otherwise onto a net that holds
/// it and a single other pin.
pub open spec fn merges_here(this: Option<NetType>, other: NetType, single_other: bool) -> bool {
    let this_pg = this matches Some(t) && is_power_or_ground(t);
    let other_pg = is_power_or_ground(other);
    let this_g = this == Some(NetType::Ground);
    let other_g = other == NetType::Ground;
    if this_pg && !other_pg {
        false
    } else if other_pg && !this_pg {
        true
    } else if this_g && other_pg && !other_g {
        false
    } else if other_g && this_pg && !this_g {
        true
    } else {
        single_other
    }
}

/// The connection a component of reference `r` on net `ni` folds into, if it folds.
pub open spec fn candidate_spec(
    comps: Seq<ComponentView>,
    nets: Seq<NetDataView>,
    ni: int,
    r: Seq<char>,
) -> Option<ConnectionView> {
    match lookup_component(comps, r) {
        None => None,
        Some(comp) => {
            if !is_mergeable(comp.component_type) {
                None
            } else {
                match other_net_info_spec(nets, r, nets[ni].name) {
                    None => None,
                    Some(info) => {
                        let this_type = match nets[ni].name {
                            Some(n) => Some(classify_net_spec(n)),
                            None => None,
                        };
                        let other_type = classify_net_spec(info.0);
                        if !merges_here(this_type, other_type, info.2 is Some) {
                            None
                        } else {
                            let target = if is_power_or_ground(other_type) {
                                Some(TargetView::Net { name: info.0, scope: info.1 })
                            } else {
                                match info.2 {
                                    Some(t) => Some(shape_view(merged_target_spec(t, info.0, info.1))),
                                    None => None,
                                }
                            };
                            match target {
                                None => None,
                                Some(t) => match comp.component_type {
                                    ComponentType::Resistor => Some(
                                        ConnectionView::Resistor {
                                            reference: r,
                                            value: comp.value,
                                            target: t,
                                        },
                                    ),
                                    ComponentType::Capacitor { polarized } => Some(
                                        ConnectionView::Capacitor {
                                            reference: r,
                                            value: comp.value,
                                            polarized,
                                            target: t,
                                        },
                                    ),
                                    ComponentType::Switch => Some(
                                        ConnectionView::Switch { reference: r, target: t },
                                    ),
                                    _ => None,
                                },
                            }
                        }
                    },
                }
            }
        },
    }
}

pub open spec fn comp_views(comps: Seq<ComponentData>) -> Seq<ComponentView> {
    comps.map_values(|c: ComponentData| c@)
}

pub open spec fn net_views(nets: Seq<NetData>) -> Seq<NetDataView> {
    nets.map_values(|n: NetData| n@)
}

pub fn find_component<'a>(comps: &'a Vec<ComponentData>, reference: &str) -> (r: Option<&'a ComponentData>)
    ensures
        match lookup_component(comp_views(comps@), reference@) {
            Some(c) => r matches Some(x) && x@ == c,
            None => r is None,
        },
{
    let mut k = comps.len();
    assert(comp_views(comps@).take(k as int) == comp_views(comps@));
    while k > 0
        invariant
            k <= comps@.len(),
            lookup_component(comp_views(comps@), reference@) == lookup_component(
                comp_views(comps@).take(k as int),
                reference@,
            ),
        decreases k,
    {
        let ghost t = comp_views(comps@).take(k as int);
        assert(t.last() == comps@[k - 1]@);
        assert(t.drop_last() == comp_views(comps@).take(k - 1));
        if str_eq(comps[k - 1].reference.as_str(), reference) {
            return Some(&comps[k - 1]);
        }
        k = k - 1;
    }
    None
}


proof fn lemma_shape_view(t: MergedTarget, v: MergedTargetView)
    requires
        target_has_view(t, v),
    ensures
        target_view(t) == shape_view(v),
{
}

/// The connection that the component `r` on net `ni` folds into, if it folds.
fn candidate(comps: &Vec<ComponentData>, nets: &Vec<NetData>, ni: usize, r: &str) -> (res:
    Option<SemanticConnection>)
    requires
        ni < nets@.len(),
    ensures
        match candidate_spec(comp_views(comps@), net_views(nets@), ni as int, r@) {
            Some(c) => res matches Some(x) && connection_view(x) == c,
            None => res is None,
        },
{
    let ghost nv = net_views(nets@);
    assert(nv[ni as int] == nets@[ni as int]@);
    let comp = match find_component(comps, r) {
        None => {
            return None;
        },
        Some(c) => c,
    };
    if !comp.component_type.is_two_pin_mergeable() {
        return None;
    }
    let current: Option<&str> = match &nets[ni].name {
        Some(n) => Some(n.as_str()),
        None => None,
    };
    assert(nets@.map_values(|n: NetData| n@) == nv);
    let info = match find_other_pin_net_info(nets, r, current) {
        None => {
            return None;
        },
        Some(i) => i,
    };
    let this_type: Option<NetType> = match &nets[ni].name {
        Some(n) => Some(NetType::classify(n.as_str())),
        None => None,
    };
    let other_type = NetType::classify(info.net_name.as_str());
    let this_pg = match this_type {
        Some(t) => t.is_power() || t.is_ground(),
        None => false,
    };
    let other_pg = other_type.is_power() || other_type.is_ground();
    let this_g = match this_type {
        Some(t) => t.is_ground(),
        None => false,
    };
    let other_g = other_type.is_ground();
    let single = match &info.single_other_pin {
        Some(_) => true,
        None => false,
    };
    let here = if this_pg && !other_pg {
        false
    } else if other_pg && !this_pg {
        true
    } else if this_g && other_pg && !other_g {
        false
    } else if other_g && this_pg && !this_g {
        true
    } else {
        single
    };
    if !here {
        return None;
    }
    let target = if other_pg {
        MergedTarget::Net { name: info.net_name.clone(), scope: info.scope }
    } else {
        match &info.single_other_pin {
            Some(t) => {
                let m = parse_merged_target(t.as_str(), info.net_name.as_str(), info.scope);
                proof {
                    lemma_shape_view(m, merged_target_spec(t@, info.net_name@, info.scope));
                }
                m
            },
            None => {
                return None;
            },
        }
    };
    match comp.component_type {
        ComponentType::Resistor => Some(
            SemanticConnection::MergedResistor {
                reference: String::from_str(r),
                value: comp.value.clone(),
                target,
            },
        ),
        ComponentType::Capacitor { polarized } => Some(
            SemanticConnection::MergedCapacitor {
                reference: String::from_str(r),
                value: comp.value.clone(),
                polarized,
                target,
            },
        ),
        ComponentType::Switch => Some(
            SemanticConnection::MergedSwitch { reference: String::from_str(r), target },
        ),
        _ => None,
    }
}


/// A component folded into a net: its reference, the connection it becomes and the
/// index of the net it is folded into.
#[derive(Debug)]
pub struct MergeCandidate {
    pub reference: String,
    pub connection: SemanticConnection,
    pub net_idx: usize,
}

pub struct CandidateView {
    pub reference: Seq<char>,
    pub connection: ConnectionView,
    pub net_idx: int,
}

pub open spec fn candidate_view(c: MergeCandidate) -> CandidateView {
    CandidateView {
        reference: c.reference@,
        connection: connection_view(c.connection),
        net_idx: c.net_idx as int,
    }
}

pub open spec fn candidate_views(cands: Seq<MergeCandidate>) -> Seq<CandidateView> {
    cands.map_values(|c: MergeCandidate| candidate_view(c))
}

pub open spec fn has_reference(cands: Seq<CandidateView>, r: Seq<char>) -> bool {
    exists|k: int| 0 <= k < cands.len() && cands[k].reference == r
}

/// The candidates found walking the nets in order and their pins in order, from pin
/// `pi` of net `ni` on, with `acc` found before: a component is taken the first time
/// one of its pins is met on a net it folds into.
pub open spec fn collect_candidates(
    comps: Seq<ComponentView>,
    nets: Seq<NetDataView>,
    ni: int,
    pi: int,
    acc: Seq<CandidateView>,
) -> Seq<CandidateView>
    decreases nets.len() - ni, (if 0 <= ni < nets.len() {
        nets[ni].pins.len() - pi
    } else {
        0
    }),
{
    if ni < 0 || ni >= nets.len() {
        acc
    } else if pi < 0 || pi >= nets[ni].pins.len() {
        collect_candidates(comps, nets, ni + 1, 0, acc)
    } else {
        let r = nets[ni].pins[pi].0;
        let next = if has_reference(acc, r) {
            acc
        } else {
            match candidate_spec(comps, nets, ni, r) {
                Some(c) => acc.push(CandidateView { reference: r, connection: c, net_idx: ni }),
                None => acc,
            }
        };
        collect_candidates(comps, nets, ni, pi + 1, next)
    }
}

fn has_candidate(cands: &Vec<MergeCandidate>, r: &str) -> (b: bool)
    ensures
        b == has_reference(candidate_views(cands@), r@),
{
    let ghost cv = candidate_views(cands@);
    let mut k: usize = 0;
    while k < cands.len()
        invariant
            k <= cands@.len(),
            cv == candidate_views(cands@),
            forall|j: int| 0 <= j < k ==> cv[j].reference != r@,
        decreases cands@.len() - k,
    {
        assert(cv[k as int] == candidate_view(cands@[k as int]));
        if str_eq(cands[k].reference.as_str(), r) {
            return true;
        }
        k = k + 1;
    }
    false
}

/// Pass one: the components that fold, in the order they are met.
fn collect_merge_candidates(comps: &Vec<ComponentData>, nets: &Vec<NetData>) -> (cands: Vec<
    MergeCandidate,
>)
    ensures
        candidate_views(cands@) == collect_candidates(
            comp_views(comps@),
            net_views(nets@),
            0,
            0,
            seq![],
        ),
{
    let ghost cs = comp_views(comps@);
    let ghost nv = net_views(nets@);
    let mut cands: Vec<MergeCandidate> = Vec::new();
    let mut ni: usize = 0;
    assert(candidate_views(cands@) == Seq::<CandidateView>::empty());
    while ni < nets.len()
        invariant
            ni <= nets@.len(),
            cs == comp_views(comps@),
            nv == net_views(nets@),
            collect_candidates(cs, nv, 0, 0, seq![]) == collect_candidates(
                cs,
                nv,
                ni as int,
                0,
                candidate_views(cands@),
            ),
        decreases nets@.len() - ni,
    {
        let mut pi: usize = 0;
        assert(nv[ni as int] == nets@[ni as int]@);
        while pi < nets[ni].pins.len()
            invariant
                ni < nets@.len(),
                pi <= nets@[ni as int].pins@.len(),
                cs == comp_views(comps@),
                nv == net_views(nets@),
                nv[ni as int] == nets@[ni as int]@,
                collect_candidates(cs, nv, 0, 0, seq![]) == collect_candidates(
                    cs,
                    nv,
                    ni as int,
                    pi as int,
                    candidate_views(cands@),
                ),
            decreases nets@[ni as int].pins@.len() - pi,
        {
            let r = nets[ni].pins[pi].0.as_str();
            assert(nv[ni as int].pins[pi as int].0 == r@);
            if !has_candidate(&cands, r) {
                match candidate(comps, nets, ni, r) {
                    Some(c) => {
                        let cand = MergeCandidate {
                            reference: String::from_str(r),
                            connection: c,
                            net_idx: ni,
                        };
                        proof {
                            assert(candidate_views(cands@.push(cand)) == candidate_views(
                                cands@,
                            ).push(candidate_view(cand)));
                        }
                        cands.push(cand);
                    },
                    None => {},
                }
            }
            pi = pi + 1;
        }
        ni = ni + 1;
    }
    cands
}


/// The reference of the pin a folded connection points at, if it points at a pin.
pub open spec fn pin_target_ref(c: ConnectionView) -> Option<Seq<char>> {
    match c {
        ConnectionView::Resistor { target: TargetView::Pin { reference, .. }, .. } => Some(reference),
        ConnectionView::Capacitor { target: TargetView::Pin { reference, .. }, .. } => Some(
            reference,
        ),
        ConnectionView::Switch { target: TargetView::Pin { reference, .. }, .. } => Some(reference),
        _ => None,
    }
}

/// A folded connection with another target.
pub open spec fn with_target(c: ConnectionView, t: TargetView) -> ConnectionView {
    match c {
        ConnectionView::Resistor { reference, value, .. } => ConnectionView::Resistor {
            reference,
            value,
            target: t,
        },
        ConnectionView::Capacitor { reference, value, polarized, .. } => ConnectionView::Capacitor {
            reference,
            value,
            polarized,
            target: t,
        },
        ConnectionView::Switch { reference, .. } => ConnectionView::Switch { reference, target: t },
        other => other,
    }
}

/// `j` is the first candidate of reference `r`.
pub open spec fn is_first_with_ref(cands: Seq<CandidateView>, r: Seq<char>, j: int) -> bool {
    &&& 0 <= j < cands.len()
    &&& cands[j].reference == r
    &&& forall|i: int| 0 <= i < j ==> cands[i].reference != r
}

/// The new connection of candidate `k` in a round of nesting: when it points at a pin of
/// another candidate that does not point back at it, that candidate's connection takes
/// the pin's place.
pub open spec fn nested_update(cands: Seq<CandidateView>, k: int) -> Option<ConnectionView> {
    match pin_target_ref(cands[k].connection) {
        None => None,
        Some(tr) => {
            if exists|j: int| is_first_with_ref(cands, tr, j) {
                let j = choose|j: int| is_first_with_ref(cands, tr, j);
                if pin_target_ref(cands[j].connection) == Some(cands[k].reference) {
                    None
                } else {
                    Some(
                        with_target(
                            cands[k].connection,
                            TargetView::Merged(Box::new(cands[j].connection)),
                        ),
                    )
                }
            } else {
                None
            }
        },
    }
}

/// One round of nesting, every candidate updated from the same snapshot.
pub open spec fn resolve_step(cands: Seq<CandidateView>) -> Seq<CandidateView> {
    Seq::new(
        cands.len(),
        |k: int|
            match nested_update(cands, k) {
                Some(c) => CandidateView {
                    reference: cands[k].reference,
                    connection: c,
                    net_idx: cands[k].net_idx,
                },
                None => cands[k],
            },
    )
}

pub open spec fn any_update(cands: Seq<CandidateView>) -> bool {
    exists|k: int| 0 <= k < cands.len() && nested_update(cands, k) is Some
}

/// The candidates that point at a pin.
pub open spec fn pinned(cands: Seq<CandidateView>) -> Set<int> {
    Set::new(|k: int| 0 <= k < cands.len() && pin_target_ref(cands[k].connection) is Some)
}

pub proof fn lemma_step_shrinks(cands: Seq<CandidateView>)
    requires
        any_update(cands),
    ensures
        pinned(resolve_step(cands)).len() < pinned(cands).len(),
{
    let st = resolve_step(cands);
    let k0 = choose|k: int| 0 <= k < cands.len() && nested_update(cands, k) is Some;
    vstd::set_lib::lemma_int_range(0, cands.len() as int);
    assert(pinned(cands).subset_of(vstd::set_lib::set_int_range(0, cands.len() as int)));
    vstd::set_lib::lemma_len_subset(pinned(cands), vstd::set_lib::set_int_range(0, cands.len() as int));
    assert(pinned(cands).contains(k0));
    assert forall|k: int| pinned(st).contains(k) implies pinned(cands).remove(k0).contains(k) by {
        if nested_update(cands, k) is Some {
            assert(pin_target_ref(st[k].connection) is None);
        }
    }
    assert(pinned(st).subset_of(pinned(cands).remove(k0)));
    vstd::set_lib::lemma_len_subset(pinned(st), pinned(cands).remove(k0));
}

/// Rounds of nesting until none changes anything.
pub open spec fn resolve_nested(cands: Seq<CandidateView>) -> Seq<CandidateView>
    decreases pinned(cands).len(),
{
    if any_update(cands) {
        proof {
            lemma_step_shrinks(cands);
        }
        resolve_nested(resolve_step(cands))
    } else {
        cands
    }
}


fn pin_target_ref_exec(c: &SemanticConnection) -> (r: Option<&str>)
    ensures
        match pin_target_ref(connection_view(*c)) {
            Some(t) => r matches Some(x) && x@ == t,
            None => r is None,
        },
{
    match c {
        SemanticConnection::MergedResistor { target: MergedTarget::Pin { reference, .. }, .. } =>
            Some(reference.as_str()),
        SemanticConnection::MergedCapacitor { target: MergedTarget::Pin { reference, .. }, .. } =>
            Some(reference.as_str()),
        SemanticConnection::MergedSwitch { target: MergedTarget::Pin { reference, .. }, .. } =>
            Some(reference.as_str()),
        _ => None,
    }
}

fn with_target_exec(c: &SemanticConnection, t: MergedTarget) -> (r: SemanticConnection)
    ensures
        connection_view(r) == with_target(connection_view(*c), target_view(t)),
{
    match c {
        SemanticConnection::MergedResistor { reference, value, .. } =>
            SemanticConnection::MergedResistor {
            reference: reference.clone(),
            value: value.clone(),
            target: t,
        },
        SemanticConnection::MergedCapacitor { reference, value, polarized, .. } =>
            SemanticConnection::MergedCapacitor {
            reference: reference.clone(),
            value: value.clone(),
            polarized: *polarized,
            target: t,
        },
        SemanticConnection::MergedSwitch { reference, .. } => SemanticConnection::MergedSwitch {
            reference: reference.clone(),
            target: t,
        },
        other => other.duplicate(),
    }
}

fn find_candidate_index(cands: &Vec<MergeCandidate>, r: &str) -> (res: Option<usize>)
    ensures
        match res {
            Some(j) => is_first_with_ref(candidate_views(cands@), r@, j as int),
            None => !exists|j: int| is_first_with_ref(candidate_views(cands@), r@, j),
        },
{
    let ghost cv = candidate_views(cands@);
    let mut k: usize = 0;
    while k < cands.len()
        invariant
            k <= cands@.len(),
            cv == candidate_views(cands@),
            forall|j: int| 0 <= j < k ==> cv[j].reference != r@,
        decreases cands@.len() - k,
    {
        assert(cv[k as int] == candidate_view(cands@[k as int]));
        if str_eq(cands[k].reference.as_str(), r) {
            return Some(k);
        }
        k = k + 1;
    }
    assert forall|j: int| !is_first_with_ref(cv, r@, j) by {
        if 0 <= j < cv.len() {
            assert(cv[j].reference != r@);
        }
    }
    None
}

fn nested_update_exec(cands: &Vec<MergeCandidate>, k: usize) -> (res: Option<SemanticConnection>)
    requires
        k < cands@.len(),
    ensures
        match nested_update(candidate_views(cands@), k as int) {
            Some(c) => res matches Some(x) && connection_view(x) == c,
            None => res is None,
        },
{
    let ghost cv = candidate_views(cands@);
    assert(cv[k as int] == candidate_view(cands@[k as int]));
    match pin_target_ref_exec(&cands[k].connection) {
        None => None,
        Some(tr) => {
            match find_candidate_index(cands, tr) {
                None => None,
                Some(j) => {
                    assert(cv[j as int] == candidate_view(cands@[j as int]));
                    assert forall|q: int| is_first_with_ref(cv, tr@, q) implies q == j by {
                        if q < j {
                            assert(cv[q].reference != tr@);
                        } else if q > j {
                            assert(cv[j as int].reference == tr@);
                        }
                    }
                    let back = match pin_target_ref_exec(&cands[j].connection) {
                        Some(b) => str_eq(b, cands[k].reference.as_str()),
                        None => false,
                    };
                    if back {
                        None
                    } else {
                        let inner = cands[j].connection.duplicate();
                        let t = MergedTarget::Merged(Box::new(inner));
                        Some(with_target_exec(&cands[k].connection, t))
                    }
                },
            }
        },
    }
}

/// One round of nesting, and whether it changed anything.
fn resolve_round(cands: &Vec<MergeCandidate>) -> (res: (Vec<MergeCandidate>, bool))
    ensures
        candidate_views(res.0@) == resolve_step(candidate_views(cands@)),
        res.1 == any_update(candidate_views(cands@)),
{
    let ghost cv = candidate_views(cands@);
    let ghost st = resolve_step(cv);
    let mut out: Vec<MergeCandidate> = Vec::new();
    let mut changed = false;
    let mut k: usize = 0;
    assert(candidate_views(out@) == st.take(0));
    while k < cands.len()
        invariant
            k <= cands@.len(),
            cv == candidate_views(cands@),
            st == resolve_step(cv),
            candidate_views(out@) == st.take(k as int),
            changed == exists|j: int| 0 <= j < k && nested_update(cv, j) is Some,
        decreases cands@.len() - k,
    {
        assert(cv[k as int] == candidate_view(cands@[k as int]));
        let c = &cands[k];
        let upd = nested_update_exec(cands, k);
        let item = match upd {
            Some(nc) => {
                changed = true;
                MergeCandidate { reference: c.reference.clone(), connection: nc, net_idx: c.net_idx }
            },
            None => MergeCandidate {
                reference: c.reference.clone(),
                connection: c.connection.duplicate(),
                net_idx: c.net_idx,
            },
        };
        proof {
            assert(candidate_views(out@.push(item)) == candidate_views(out@).push(
                candidate_view(item),
            ));
            assert(st.take(k + 1) == st.take(k as int).push(st[k as int]));
        }
        out.push(item);
        k = k + 1;
    }
    assert(st.take(cands@.len() as int) == st);
    (out, changed)
}

/// Pass two: nest candidates that point at other candidates until nothing changes.
fn resolve_candidates(cands: Vec<MergeCandidate>) -> (res: Vec<MergeCandidate>)
    ensures
        candidate_views(res@) == resolve_nested(candidate_views(cands@)),
{
    let mut cur = cands;
    loop
        invariant
            resolve_nested(candidate_views(cur@)) == resolve_nested(candidate_views(cands@)),
        decreases pinned(candidate_views(cur@)).len(),
    {
        let (next, changed) = resolve_round(&cur);
        if !changed {
            return cur;
        }
        proof {
            lemma_step_shrinks(candidate_views(cur@));
        }
        cur = next;
    }
}


/// The reference of a folded connection.
pub open spec fn merged_reference(c: ConnectionView) -> Option<Seq<char>> {
    match c {
        ConnectionView::Resistor { reference, .. } => Some(reference),
        ConnectionView::Capacitor { reference, .. } => Some(reference),
        ConnectionView::Switch { reference, .. } => Some(reference),
        _ => None,
    }
}

/// The reference of the folded connection that stands as a connection's target.
pub open spec fn inner_reference(c: ConnectionView) -> Option<Seq<char>> {
    match c {
        ConnectionView::Resistor { target: TargetView::Merged(inner), .. } => merged_reference(
            *inner,
        ),
        ConnectionView::Capacitor { target: TargetView::Merged(inner), .. } => merged_reference(
            *inner,
        ),
        ConnectionView::Switch { target: TargetView::Merged(inner), .. } => merged_reference(*inner),
        _ => None,
    }
}

/// A candidate nested as the target of another one.
pub open spec fn is_nested(all: Seq<CandidateView>, r: Seq<char>) -> bool {
    exists|k: int| 0 <= k < all.len() && inner_reference(all[k].connection) == Some(r)
}

/// The connections folded into net `ni` that stand at its top level, in candidate order.
pub open spec fn folded_on(all: Seq<CandidateView>, cs: Seq<CandidateView>, ni: int) -> Seq<
    ConnectionView,
>
    decreases cs.len(),
{
    if cs.len() == 0 {
        Seq::empty()
    } else {
        let rest = folded_on(all, cs.drop_last(), ni);
        let c = cs.last();
        if c.net_idx == ni && !is_nested(all, c.reference) {
            rest.push(c.connection)
        } else {
            rest
        }
    }
}

/// The pins of a net whose component was not folded.
pub open spec fn pin_endpoints(all: Seq<CandidateView>, pins: Seq<(Seq<char>, Seq<char>)>) -> Seq<
    ConnectionView,
>
    decreases pins.len(),
{
    if pins.len() == 0 {
        Seq::empty()
    } else {
        let rest = pin_endpoints(all, pins.drop_last());
        let p = pins.last();
        if !has_reference(all, p.0) {
            rest.push(ConnectionView::Pin { reference: p.0, pin: p.1 })
        } else {
            rest
        }
    }
}

/// The label of a net, unless it has none or an automatic `NET_` name.
pub open spec fn label_endpoint(net: NetDataView) -> Seq<ConnectionView> {
    match net.name {
        Some(n) => if "NET_"@.is_prefix_of(n) {
            Seq::empty()
        } else {
            seq![ConnectionView::Net { name: n, scope: net.scope }]
        },
        None => Seq::empty(),
    }
}

/// The endpoints of net `ni`: folded connections, remaining pins, then the label.
pub open spec fn net_endpoints(all: Seq<CandidateView>, net: NetDataView, ni: int) -> Seq<
    ConnectionView,
> {
    folded_on(all, all, ni) + pin_endpoints(all, net.pins) + label_endpoint(net)
}

/// Pass three: the endpoints of each net, for the nets with at least two.
pub open spec fn processed_nets(all: Seq<CandidateView>, nets: Seq<NetDataView>) -> Seq<
    Seq<ConnectionView>,
>
    decreases nets.len(),
{
    if nets.len() == 0 {
        Seq::empty()
    } else {
        let rest = processed_nets(all, nets.drop_last());
        let e = net_endpoints(all, nets.last(), nets.len() - 1);
        if e.len() >= 2 {
            rest.push(e)
        } else {
            rest
        }
    }
}

/// A processed connection line with semantic annotations
#[derive(Debug)]
pub struct ProcessedNet {
    /// All endpoints in this net
    pub endpoints: Vec<SemanticConnection>,
}

pub open spec fn endpoints_view(p: ProcessedNet) -> Seq<ConnectionView> {
    p.endpoints@.map_values(|c: SemanticConnection| connection_view(c))
}

pub open spec fn processed_views(ps: Seq<ProcessedNet>) -> Seq<Seq<ConnectionView>> {
    ps.map_values(|p: ProcessedNet| endpoints_view(p))
}

fn merged_reference_exec(c: &SemanticConnection) -> (r: Option<&str>)
    ensures
        match merged_reference(connection_view(*c)) {
            Some(t) => r matches Some(x) && x@ == t,
            None => r is None,
        },
{
    match c {
        SemanticConnection::MergedResistor { reference, .. } => Some(reference.as_str()),
        SemanticConnection::MergedCapacitor { reference, .. } => Some(reference.as_str()),
        SemanticConnection::MergedSwitch { reference, .. } => Some(reference.as_str()),
        _ => None,
    }
}

fn inner_reference_exec(c: &SemanticConnection) -> (r: Option<&str>)
    ensures
        match inner_reference(connection_view(*c)) {
            Some(t) => r matches Some(x) && x@ == t,
            None => r is None,
        },
{
    match c {
        SemanticConnection::MergedResistor { target: MergedTarget::Merged(inner), .. } =>
            merged_reference_exec(inner),
        SemanticConnection::MergedCapacitor { target: MergedTarget::Merged(inner), .. } =>
            merged_reference_exec(inner),
        SemanticConnection::MergedSwitch { target: MergedTarget::Merged(inner), .. } =>
            merged_reference_exec(inner),
        _ => None,
    }
}

fn is_nested_exec(all: &Vec<MergeCandidate>, r: &str) -> (b: bool)
    ensures
        b == is_nested(candidate_views(all@), r@),
{
    let ghost cv = candidate_views(all@);
    let mut k: usize = 0;
    while k < all.len()
        invariant
            k <= all@.len(),
            cv == candidate_views(all@),
            forall|j: int| 0 <= j < k ==> inner_reference(cv[j].connection) != Some(r@),
        decreases all@.len() - k,
    {
        assert(cv[k as int] == candidate_view(all@[k as int]));
        match inner_reference_exec(&all[k].connection) {
            Some(x) => {
                if str_eq(x, r) {
                    return true;
                }
            },
            None => {},
        }
        k = k + 1;
    }
    false
}

/// The endpoints of net `ni`.
fn net_endpoints_exec(all: &Vec<MergeCandidate>, net: &NetData, ni: usize) -> (res: Vec<
    SemanticConnection,
>)
    ensures
        res@.map_values(|c: SemanticConnection| connection_view(c)) == net_endpoints(
            candidate_views(all@),
            net@,
            ni as int,
        ),
{
    let ghost cv = candidate_views(all@);
    let mut out: Vec<SemanticConnection> = Vec::new();
    let mut k: usize = 0;
    assert(cv.take(0) == Seq::<CandidateView>::empty());
    while k < all.len()
        invariant
            k <= all@.len(),
            cv == candidate_views(all@),
            out@.map_values(|c: SemanticConnection| connection_view(c)) == folded_on(
                cv,
                cv.take(k as int),
                ni as int,
            ),
        decreases all@.len() - k,
    {
        assert(cv[k as int] == candidate_view(all@[k as int]));
        assert(cv.take(k + 1).drop_last() == cv.take(k as int));
        if all[k].net_idx == ni && !is_nested_exec(all, all[k].reference.as_str()) {
            let c = all[k].connection.duplicate();
            proof {
                assert(out@.push(c).map_values(|c: SemanticConnection| connection_view(c))
                    == out@.map_values(|c: SemanticConnection| connection_view(c)).push(
                    connection_view(c),
                ));
            }
            out.push(c);
        }
        k = k + 1;
    }
    assert(cv.take(all@.len() as int) == cv);
    let ghost folded = out@.map_values(|c: SemanticConnection| connection_view(c));
    let ghost pins = net@.pins;
    let mut i: usize = 0;
    assert(pins.take(0) == Seq::<(Seq<char>, Seq<char>)>::empty());
    assert(folded + pin_endpoints(cv, pins.take(0)) == folded);
    while i < net.pins.len()
        invariant
            i <= net.pins@.len(),
            cv == candidate_views(all@),
            pins == net@.pins,
            out@.map_values(|c: SemanticConnection| connection_view(c)) == folded + pin_endpoints(
                cv,
                pins.take(i as int),
            ),
        decreases net.pins@.len() - i,
    {
        assert(pins.take(i + 1).drop_last() == pins.take(i as int));
        assert(pins[i as int] == (net.pins@[i as int].0@, net.pins@[i as int].1@));
        if !has_candidate(all, net.pins[i].0.as_str()) {
            let c = SemanticConnection::Pin {
                reference: net.pins[i].0.clone(),
                pin: net.pins[i].1.clone(),
            };
            proof {
                assert(out@.push(c).map_values(|c: SemanticConnection| connection_view(c))
                    == out@.map_values(|c: SemanticConnection| connection_view(c)).push(
                    connection_view(c),
                ));
            }
            out.push(c);
        }
        i = i + 1;
    }
    assert(pins.take(net.pins@.len() as int) == pins);
    let ghost before = out@.map_values(|c: SemanticConnection| connection_view(c));
    match &net.name {
        Some(n) => {
            let v = crate::text::chars_of(n.as_str());
            let pre = crate::text::chars_of("NET_");
            if !crate::text::has_prefix(&v, &pre) {
                let c = SemanticConnection::Net { name: n.clone(), scope: net.scope };
                proof {
                    assert(out@.push(c).map_values(|c: SemanticConnection| connection_view(c))
                        == before.push(connection_view(c)));
                }
                out.push(c);
                assert(before.push(connection_view(c)) == before + label_endpoint(net@));
            } else {
                assert(before == before + label_endpoint(net@));
            }
        },
        None => {
            assert(before == before + label_endpoint(net@));
        },
    }
    out
}

/// Pass three: the processed nets, in net order.
fn build_processed_nets(all: &Vec<MergeCandidate>, nets: &Vec<NetData>) -> (res: Vec<ProcessedNet>)
    ensures
        processed_views(res@) == processed_nets(candidate_views(all@), net_views(nets@)),
{
    let ghost cv = candidate_views(all@);
    let ghost nv = net_views(nets@);
    let mut out: Vec<ProcessedNet> = Vec::new();
    let mut ni: usize = 0;
    assert(nv.take(0) == Seq::<NetDataView>::empty());
    assert(processed_views(out@) == Seq::<Seq<ConnectionView>>::empty());
    while ni < nets.len()
        invariant
            ni <= nets@.len(),
            cv == candidate_views(all@),
            nv == net_views(nets@),
            processed_views(out@) == processed_nets(cv, nv.take(ni as int)),
        decreases nets@.len() - ni,
    {
        assert(nv.take(ni + 1).drop_last() == nv.take(ni as int));
        assert(nv.take(ni + 1).last() == nets@[ni as int]@);
        let eps = net_endpoints_exec(all, &nets[ni], ni);
        if eps.len() >= 2 {
            let p = ProcessedNet { endpoints: eps };
            proof {
                assert(processed_views(out@.push(p)) == processed_views(out@).push(
                    endpoints_view(p),
                ));
            }
            out.push(p);
        }
        ni = ni + 1;
    }
    assert(nv.take(nets@.len() as int) == nv);
    out
}


pub open spec fn first_net_name(eps: Seq<ConnectionView>) -> Option<Seq<char>>
    decreases eps.len(),
{
    if eps.len() == 0 {
        None
    } else {
        match eps[0] {
            ConnectionView::Net { name, .. } => Some(name),
            _ => first_net_name(eps.drop_first()),
        }
    }
}

pub open spec fn first_pin_reference(eps: Seq<ConnectionView>) -> Option<Seq<char>>
    decreases eps.len(),
{
    if eps.len() == 0 {
        None
    } else {
        match eps[0] {
            ConnectionView::Pin { reference, .. } => Some(reference),
            _ => first_pin_reference(eps.drop_first()),
        }
    }
}

/// What nets are ordered by: the first net label, else the first pin's reference.
pub open spec fn net_sort_key(eps: Seq<ConnectionView>) -> Seq<char> {
    match first_net_name(eps) {
        Some(n) => n,
        None => match first_pin_reference(eps) {
            Some(r) => r,
            None => Seq::empty(),
        },
    }
}

pub open spec fn net_order() -> spec_fn(Seq<ConnectionView>, Seq<ConnectionView>) -> bool {
    |a: Seq<ConnectionView>, b: Seq<ConnectionView>| seq_lt(net_sort_key(a), net_sort_key(b))
}

fn net_sort_key_exec(p: &ProcessedNet) -> (k: String)
    ensures
        k@ == net_sort_key(endpoints_view(*p)),
{
    let ghost eps = endpoints_view(*p);
    let mut i: usize = 0;
    assert(eps.skip(0) == eps);
    while i < p.endpoints.len()
        invariant
            i <= p.endpoints@.len(),
            eps == endpoints_view(*p),
            first_net_name(eps) == first_net_name(eps.skip(i as int)),
        decreases p.endpoints@.len() - i,
    {
        assert(eps.skip(i as int)[0] == connection_view(p.endpoints@[i as int]));
        assert(eps.skip(i as int).drop_first() == eps.skip(i + 1));
        match &p.endpoints[i] {
            SemanticConnection::Net { name, .. } => {
                return name.clone();
            },
            _ => {},
        }
        i = i + 1;
    }
    let mut i: usize = 0;
    while i < p.endpoints.len()
        invariant
            i <= p.endpoints@.len(),
            eps == endpoints_view(*p),
            first_net_name(eps) is None,
            first_pin_reference(eps) == first_pin_reference(eps.skip(i as int)),
        decreases p.endpoints@.len() - i,
    {
        assert(eps.skip(i as int)[0] == connection_view(p.endpoints@[i as int]));
        assert(eps.skip(i as int).drop_first() == eps.skip(i + 1));
        match &p.endpoints[i] {
            SemanticConnection::Pin { reference, .. } => {
                return reference.clone();
            },
            _ => {},
        }
        i = i + 1;
    }
    String::new()
}

/// The nets sorted by their keys, keeping the order of nets with equal keys.
fn sort_processed_nets(v: Vec<ProcessedNet>) -> (r: Vec<ProcessedNet>)
    ensures
        processed_views(r@) == sort_by(processed_views(v@), net_order()),
{
    let ghost sv = processed_views(v@);
    let mut rest = v;
    let mut out: Vec<ProcessedNet> = Vec::new();
    let ghost mut k: int = 0;
    assert(sv.take(0) == Seq::<Seq<ConnectionView>>::empty());
    while rest.len() > 0
        invariant
            0 <= k <= sv.len(),
            rest@.len() + k == sv.len(),
            processed_views(rest@) == sv.skip(k),
            processed_views(out@) == sort_by(sv.take(k), net_order()),
        decreases rest@.len(),
    {
        let ghost old_rest = rest@;
        let x = rest.remove(0);
        proof {
            assert(processed_views(old_rest)[0] == endpoints_view(old_rest[0]));
            assert(sv.skip(k)[0] == sv[k]);
            assert(endpoints_view(x) == sv[k]);
            assert(processed_views(rest@) =~= sv.skip(k + 1)) by {
                assert forall|j: int| 0 <= j < rest@.len() implies processed_views(rest@)[j]
                    == sv.skip(k + 1)[j] by {
                    assert(rest@[j] == old_rest[j + 1]);
                    assert(processed_views(old_rest)[j + 1] == sv.skip(k)[j + 1]);
                }
            }
            assert(sv.take(k + 1).drop_last() == sv.take(k));
        }
        let kx = net_sort_key_exec(&x);
        let mut p: usize = 0;
        let mut found = false;
        while !found && p < out.len()
            invariant
                p <= out@.len(),
                kx@ == net_sort_key(endpoints_view(x)),
                found ==> p < out@.len() && (net_order())(
                    endpoints_view(x),
                    processed_views(out@)[p as int],
                ),
                forall|j: int|
                    0 <= j < p ==> !(net_order())(
                        endpoints_view(x),
                        #[trigger] processed_views(out@)[j],
                    ),
            decreases out@.len() - p, (if found {
                0int
            } else {
                1int
            }),
        {
            let ko = net_sort_key_exec(&out[p]);
            assert(processed_views(out@)[p as int] == endpoints_view(out@[p as int]));
            if str_lt(kx.as_str(), ko.as_str()) {
                found = true;
            } else {
                p = p + 1;
            }
        }
        proof {
            lemma_insert_at(processed_views(out@), endpoints_view(x), net_order(), p as int);
            assert(processed_views(out@.insert(p as int, x)) == processed_views(out@).insert(
                p as int,
                endpoints_view(x),
            ));
        }
        out.insert(p, x);
        proof {
            k = k + 1;
        }
    }
    assert(sv.take(sv.len() as int) == sv);
    out
}


/// Texts joined with `sep` between them.
pub open spec fn join_with(ts: Seq<Seq<char>>, sep: Seq<char>) -> Seq<char>
    decreases ts.len(),
{
    if ts.len() == 0 {
        Seq::empty()
    } else if ts.len() == 1 {
        ts[0]
    } else {
        join_with(ts.drop_last(), sep) + sep + ts.last()
    }
}

/// The texts of a net's endpoints.
pub open spec fn endpoint_texts(p: ProcessedNet) -> Seq<Seq<char>> {
    p.endpoints@.map_values(|c: SemanticConnection| connection_text(c))
}

impl ProcessedNet {
    /// The net as one line: its endpoints separated by commas.
    pub fn to_string(&self) -> (r: String)
        ensures
            r@ == join_with(endpoint_texts(*self), ", "@),
    {
        let ghost ts = endpoint_texts(*self);
        let mut r = String::new();
        let mut k: usize = 0;
        assert(ts.take(0) == Seq::<Seq<char>>::empty());
        while k < self.endpoints.len()
            invariant
                k <= self.endpoints@.len(),
                ts == endpoint_texts(*self),
                r@ == join_with(ts.take(k as int), ", "@),
            decreases self.endpoints@.len() - k,
        {
            assert(ts.take(k + 1).drop_last() == ts.take(k as int));
            assert(ts[k as int] == connection_text(self.endpoints@[k as int]));
            if k > 0 {
                r.append(", ");
            } else {
                assert(ts.take(1) == seq![ts[0]]);
                assert(Seq::<char>::empty() + ts[0] == ts[0]);
            }
            let t = self.endpoints[k].to_string();
            r.append(t.as_str());
            k = k + 1;
        }
        assert(ts.take(self.endpoints@.len() as int) == ts);
        r
    }
}

/// The candidates after both passes.
pub open spec fn final_candidates(comps: Seq<ComponentView>, nets: Seq<NetDataView>) -> Seq<
    CandidateView,
> {
    resolve_nested(collect_candidates(comps, nets, 0, 0, seq![]))
}

/// The connections of the semantic outline, sorted by their keys, and the references of
/// the components folded into them (in the order they were found).
pub fn semantic_connections(comps: &Vec<ComponentData>, nets: &Vec<NetData>) -> (r: (
    Vec<ProcessedNet>,
    Vec<String>,
))
    ensures
        processed_views(r.0@) == sort_by(
            processed_nets(final_candidates(comp_views(comps@), net_views(nets@)), net_views(nets@)),
            net_order(),
        ),
        r.1@.map_values(|s: String| s@) == final_candidates(comp_views(comps@), net_views(nets@)).map_values(
            |c: CandidateView| c.reference,
        ),
{
    let c1 = collect_merge_candidates(comps, nets);
    let c2 = resolve_candidates(c1);
    let pn = build_processed_nets(&c2, nets);
    let sorted = sort_processed_nets(pn);
    let ghost cv = candidate_views(c2@);
    let mut absorbed: Vec<String> = Vec::new();
    let mut k: usize = 0;
    while k < c2.len()
        invariant
            k <= c2@.len(),
            cv == candidate_views(c2@),
            absorbed@.map_values(|s: String| s@) == cv.take(k as int).map_values(
                |c: CandidateView| c.reference,
            ),
        decreases c2@.len() - k,
    {
        assert(cv[k as int] == candidate_view(c2@[k as int]));
        let name = c2[k].reference.clone();
        proof {
            assert(absorbed@.push(name).map_values(|s: String| s@) == absorbed@.map_values(
                |s: String| s@,
            ).push(name@));
            assert(cv.take(k + 1).map_values(|c: CandidateView| c.reference) == cv.take(
                k as int,
            ).map_values(|c: CandidateView| c.reference).push(cv[k as int].reference));
        }
        absorbed.push(name);
        k = k + 1;
    }
    assert(cv.take(c2@.len() as int) == cv);
    (sorted, absorbed)
}

/// The target a folded connection points at.
pub open spec fn connection_target(c: ConnectionView) -> Option<TargetView> {
    match c {
        ConnectionView::Resistor { target, .. } => Some(target),
        ConnectionView::Capacitor { target, .. } => Some(target),
        ConnectionView::Switch { target, .. } => Some(target),
        _ => None,
    }
}

/// A resistor, capacitor or switch between a power net and a ground net is folded into
/// the power net, pointing at the ground net.
pub proof fn lemma_part_between_power_and_ground_folds_into_power(
    comps: Seq<ComponentView>,
    nets: Seq<NetDataView>,
    ni: int,
    r: Seq<char>,
)
    requires
        0 <= ni < nets.len(),
        lookup_component(comps, r) matches Some(c) && (c.component_type is Resistor || c.component_type is Capacitor
            || c.component_type is Switch),
        nets[ni].name matches Some(n) && classify_net_spec(n) == NetType::Power,
        other_net_info_spec(nets, r, nets[ni].name) matches Some(info) && classify_net_spec(info.0) == NetType::Ground,
    ensures
        ({
            let info = other_net_info_spec(nets, r, nets[ni].name).unwrap();
            &&& candidate_spec(comps, nets, ni, r) is Some
            &&& connection_target(candidate_spec(comps, nets, ni, r).unwrap()) == Some(
                TargetView::Net { name: info.0, scope: info.1 },
            )
        }),
{
}

/// Seen from the ground net, a resistor, capacitor or switch between a ground net and a
/// power net is not folded there.
pub proof fn lemma_part_between_ground_and_power_stays_off_ground(
    comps: Seq<ComponentView>,
    nets: Seq<NetDataView>,
    ni: int,
    r: Seq<char>,
)
    requires
        0 <= ni < nets.len(),
        nets[ni].name matches Some(n) && classify_net_spec(n) == NetType::Ground,
        other_net_info_spec(nets, r, nets[ni].name) matches Some(info) && classify_net_spec(info.0) == NetType::Power,
    ensures
        candidate_spec(comps, nets, ni, r) is None,
{
}

/// The reference a folded connection carries.
pub open spec fn connection_reference(c: ConnectionView) -> Option<Seq<char>> {
    match c {
        ConnectionView::Resistor { reference, .. } => Some(reference),
        ConnectionView::Capacitor { reference, .. } => Some(reference),
        ConnectionView::Switch { reference, .. } => Some(reference),
        _ => None,
    }
}

/// A resistor, capacitor or switch between a signal net (named or not, neither power nor
/// ground) and a power or ground net is folded into the signal net, pointing at the
/// power or ground net, under its own reference; seen from the power or ground net it is
/// not folded there.
pub proof fn lemma_part_at_supply_folds_into_signal(
    comps: Seq<ComponentView>,
    nets: Seq<NetDataView>,
    ni: int,
    r: Seq<char>,
)
    requires
        0 <= ni < nets.len(),
        lookup_component(comps, r) matches Some(c) && (c.component_type is Resistor || c.component_type is Capacitor
            || c.component_type is Switch),
        other_net_info_spec(nets, r, nets[ni].name) is Some,
    ensures
        ({
            let info = other_net_info_spec(nets, r, nets[ni].name).unwrap();
            let this_supply = nets[ni].name matches Some(n) && is_power_or_ground(classify_net_spec(n));
            let other_supply = is_power_or_ground(classify_net_spec(info.0));
            &&& !this_supply && other_supply ==> {
                &&& candidate_spec(comps, nets, ni, r) is Some
                &&& connection_target(candidate_spec(comps, nets, ni, r).unwrap()) == Some(
                    TargetView::Net { name: info.0, scope: info.1 },
                )
                &&& connection_reference(candidate_spec(comps, nets, ni, r).unwrap()) == Some(r)
            }
            &&& this_supply && !other_supply ==> candidate_spec(comps, nets, ni, r) is None
        }),
{
}

/// A folded component keeps its reference and value, and a capacitor its polarity; a
/// switch carries no value.
pub proof fn lemma_candidate_keeps_component(comps: Seq<ComponentView>, nets: Seq<NetDataView>, ni: int, r: Seq<char>)
    requires
        0 <= ni < nets.len(),
        candidate_spec(comps, nets, ni, r) is Some,
    ensures
        lookup_component(comps, r) is Some,
        ({
            let c = lookup_component(comps, r).unwrap();
            match candidate_spec(comps, nets, ni, r).unwrap() {
                ConnectionView::Resistor { reference, value, .. } => reference == r && value == c.value
                    && c.component_type is Resistor,
                ConnectionView::Capacitor { reference, value, polarized, .. } => reference == r && value == c.value
                    && c.component_type == (ComponentType::Capacitor { polarized }),
                ConnectionView::Switch { reference, .. } => reference == r && c.component_type is Switch,
                _ => false,
            }
        }),
{
}

} // verus!
