//! BOM planning: the model proposes a part number per component class, the catalog decides,
//! and only catalogued parts are committed, through the seam.
use vstd::prelude::*;
use vstd::string::StringExecFns;
use crate::decimal::{decimal_digits, decimal_text};
use crate::domain::{
    BomLineItem, Component, ComponentClass, EntityId, Part, PartLifecycle, ProvenanceLink,
    RelationType,
};
use crate::kernel::RuntimeCore;
use crate::laws::{
    integrity, lemma_fold_first, lemma_fold_links, lemma_fold_one, lemma_invoke_keeps_integrity,
};
use crate::ports::{CandidatePart, Event, ReasoningRequest, ReasoningResponse};
use crate::protocol::{AgentActivation, AgentOutcome, Budget, CapabilityRequest, MachineError, StepResult};
use crate::seam::{
    bom_problem_from, comp_ids, contains_id, covered, decide, is_covered, lemma_state_keys, part_ids,
    request_size,
};
use crate::state::{has_id, keys, EngineeringState, StateView};
use crate::views::BomLineItemView;
use crate::state::{apply_spec, fold_events};
use crate::kernel::link_events;
use crate::text::{
    chars_of, eq_ignore_ascii_case, same_text, spec_eq_ignore_ascii_case, spec_is_blank, spec_trim, trim,
};
use crate::views::copy_vec;

verus! {

/// The canonical name of a component class, used in prompts and for matching labels.
pub open spec fn class_name_spec(class: ComponentClass) -> Seq<char> {
    match class {
        ComponentClass::Connector => "Connector"@,
        ComponentClass::Regulator => "Regulator"@,
        ComponentClass::Ic => "Ic"@,
        ComponentClass::Resistor => "Resistor"@,
        ComponentClass::Capacitor => "Capacitor"@,
    }
}

pub fn class_name(class: ComponentClass) -> (r: &'static str)
    ensures
        r@ == class_name_spec(class),
{
    match class {
        ComponentClass::Connector => "Connector",
        ComponentClass::Regulator => "Regulator",
        ComponentClass::Ic => "Ic",
        ComponentClass::Resistor => "Resistor",
        ComponentClass::Capacitor => "Capacitor",
    }
}

/// Whether a model-supplied class label names the class: trimmed, then equal up to ASCII case.
pub open spec fn label_names(label: Seq<char>, class: ComponentClass) -> bool {
    spec_eq_ignore_ascii_case(spec_trim(label), class_name_spec(class))
}

pub fn class_matches(label: &str, class: ComponentClass) -> (r: bool)
    ensures
        r == label_names(label@, class),
{
    let l = chars_of(label);
    let t = trim(&l);
    let n = chars_of(class_name(class));
    eq_ignore_ascii_case(&t, &n)
}

/// One FNV-1a 64 step over a character taken as a byte.
pub open spec fn fnv_step(h: u64, c: char) -> u64 {
    (h ^ (c as u32 as u64)).wrapping_mul(0x0000_0100_0000_01b3)
}

pub open spec fn fnv_text(h: u64, s: Seq<char>) -> u64
    decreases s.len(),
{
    if s.len() == 0 {
        h
    } else {
        fnv_step(fnv_text(h, s.drop_last()), s.last())
    }
}

pub open spec fn fnv_classes(h: u64, classes: Seq<ComponentClass>) -> u64
    decreases classes.len(),
{
    if classes.len() == 0 {
        h
    } else {
        fnv_text(fnv_classes(h, classes.drop_last()), class_name_spec(classes.last()))
    }
}

/// The reasoning seed of a class list: FNV-1a 64 over the class names, in order.
pub open spec fn stable_seed_spec(classes: Seq<ComponentClass>) -> u64 {
    fnv_classes(0xcbf2_9ce4_8422_2325, classes)
}

/// A deterministic seed from the class list (FNV-1a 64), so a run is reproducible.
pub fn stable_seed(classes: &Vec<ComponentClass>) -> (r: u64)
    ensures
        r == stable_seed_spec(classes@),
{
    let mut h: u64 = 0xcbf2_9ce4_8422_2325;
    let mut i: usize = 0;
    while i < classes.len()
        invariant
            i <= classes.len(),
            h == fnv_classes(0xcbf2_9ce4_8422_2325, classes@.take(i as int)),
        decreases classes.len() - i,
    {
        let name = chars_of(class_name(classes[i]));
        let ghost h0 = h;
        let mut j: usize = 0;
        while j < name.len()
            invariant
                j <= name.len(),
                h == fnv_text(h0, name@.take(j as int)),
            decreases name.len() - j,
        {
            let c = name[j];
            proof {
                assert(name@.take(j + 1).drop_last() =~= name@.take(j as int));
            }
            h = (h ^ (c as u32 as u64)).wrapping_mul(0x0000_0100_0000_01b3);
            j += 1;
        }
        proof {
            assert(name@.take(name.len() as int) =~= name@);
            assert(classes@.take(i + 1).drop_last() =~= classes@.take(i as int));
        }
        i += 1;
    }
    assert(classes@.take(classes.len() as int) =~= classes@);
    h
}

/// The class list of a prompt: one `- Name` line per class.
pub open spec fn class_lines(classes: Seq<ComponentClass>) -> Seq<char>
    decreases classes.len(),
{
    if classes.len() == 0 {
        Seq::empty()
    } else if classes.len() == 1 {
        "- "@ + class_name_spec(classes[0])
    } else {
        class_lines(classes.drop_last()) + "\n- "@ + class_name_spec(classes.last())
    }
}

pub open spec fn part_prompt_spec(classes: Seq<ComponentClass>) -> Seq<char> {
    "Propose a manufacturer part number (MPN) from the approved catalog for each of the following component classes. Return one entry per class with its `component_class` and `mpn`. Only approved-catalog parts are accepted; any other MPN will be rejected.\n\nCOMPONENT CLASSES:\n"@
        + class_lines(classes) + "\n"@
}

/// The part-selection prompt for the classes present, in order.
pub fn build_prompt(classes: &Vec<ComponentClass>) -> (r: String)
    ensures
        r@ == part_prompt_spec(classes@),
{
    let mut list = String::new();
    let mut i: usize = 0;
    assert(list@ =~= class_lines(classes@.take(0)));
    while i < classes.len()
        invariant
            i <= classes.len(),
            list@ == class_lines(classes@.take(i as int)),
        decreases classes.len() - i,
    {
        if i > 0 {
            list.append("\n");
        }
        list.append("- ");
        list.append(class_name(classes[i]));
        proof {
            let t = classes@.take(i + 1);
            assert(t.drop_last() =~= classes@.take(i as int));
            if i == 0 {
                assert(list@ =~= "- "@ + class_name_spec(t[0]));
            } else {
                reveal_strlit("\n");
                reveal_strlit("- ");
                reveal_strlit("\n- ");
                assert(list@ =~= class_lines(classes@.take(i as int)) + "\n- "@ + class_name_spec(
                    t.last(),
                ));
            }
        }
        i += 1;
    }
    assert(classes@.take(classes.len() as int) =~= classes@);
    let mut out = "Propose a manufacturer part number (MPN) from the approved catalog for each of the following component classes. Return one entry per class with its `component_class` and `mpn`. Only approved-catalog parts are accepted; any other MPN will be rejected.\n\nCOMPONENT CLASSES:\n".to_owned();
    out.append(list.as_str());
    out.append("\n");
    out
}

/// The components of one class, in first-appearance order.
#[derive(Debug)]
pub struct ClassGroup {
    pub class: ComponentClass,
    pub components: Vec<EntityId>,
}

pub open spec fn group_views(g: Seq<ClassGroup>) -> Seq<(ComponentClass, Seq<EntityId>)> {
    g.map_values(|x: ClassGroup| (x.class, x.components@))
}

/// The position of the first group of `class`, from position `i` on.
pub open spec fn group_index(g: Seq<(ComponentClass, Seq<EntityId>)>, class: ComponentClass, i: nat) -> Option<
    nat,
>
    decreases g.len() - i,
{
    if i >= g.len() {
        None
    } else if g[i as int].0 == class {
        Some(i)
    } else {
        group_index(g, class, i + 1)
    }
}

/// Add a component to its class's group, opening the group on first appearance.
pub open spec fn add_member(g: Seq<(ComponentClass, Seq<EntityId>)>, class: ComponentClass, id: EntityId) -> Seq<
    (ComponentClass, Seq<EntityId>),
> {
    match group_index(g, class, 0) {
        Some(k) => g.update(k as int, (class, g[k as int].1.push(id))),
        None => g.push((class, seq![id])),
    }
}

/// Components grouped by class, groups in first-appearance order, members in order.
pub open spec fn groups_of(comps: Seq<Component>) -> Seq<(ComponentClass, Seq<EntityId>)>
    decreases comps.len(),
{
    if comps.len() == 0 {
        Seq::empty()
    } else {
        add_member(groups_of(comps.drop_last()), comps.last().class, comps.last().id)
    }
}

pub proof fn lemma_group_index(g: Seq<(ComponentClass, Seq<EntityId>)>, class: ComponentClass, i: nat)
    ensures
        group_index(g, class, i) matches Some(k) ==> i <= k < g.len() && g[k as int].0 == class,
        group_index(g, class, i) is None ==> forall|j: int| i <= j < g.len() ==> g[j].0 != class,
    decreases g.len() - i,
{
    if i < g.len() && g[i as int].0 != class {
        lemma_group_index(g, class, i + 1);
    }
}

/// The ids of a list of components, in order.
pub open spec fn ids_of(comps: Seq<Component>) -> Seq<EntityId> {
    comps.map_values(|c: Component| c.id)
}

/// How many members the groups hold in all.
pub open spec fn group_total(g: Seq<(ComponentClass, Seq<EntityId>)>) -> nat
    decreases g.len(),
{
    if g.len() == 0 {
        0
    } else {
        group_total(g.drop_last()) + g.last().1.len()
    }
}

/// The shape of a grouping of components with distinct ids: one group per class, each
/// non-empty and without repeats, no id in two groups, every member one of the ids.
pub open spec fn groups_shaped(comps: Seq<Component>, g: Seq<(ComponentClass, Seq<EntityId>)>) -> bool {
    &&& forall|j: int, k: int| 0 <= j < k < g.len() ==> #[trigger] g[j].0 != #[trigger] g[k].0
    &&& forall|k: int| 0 <= k < g.len() ==> (#[trigger] g[k]).1.len() > 0 && g[k].1.no_duplicates()
    &&& forall|j: int, k: int, x: EntityId|
        0 <= j < g.len() && 0 <= k < g.len() && j != k && (#[trigger] g[j].1.contains(x))
            ==> !(#[trigger] g[k].1.contains(x))
    &&& forall|k: int, m: int|
        0 <= k < g.len() && 0 <= m < g[k].1.len() ==> ids_of(comps).contains(#[trigger] g[k].1[m])
    &&& group_total(g) == comps.len()
}

proof fn lemma_total_update(g: Seq<(ComponentClass, Seq<EntityId>)>, k: int, v: (ComponentClass, Seq<EntityId>))
    requires
        0 <= k < g.len(),
    ensures
        group_total(g.update(k, v)) == group_total(g) - g[k].1.len() + v.1.len(),
    decreases g.len(),
{
    let u = g.update(k, v);
    if k == g.len() - 1 {
        assert(u.drop_last() =~= g.drop_last());
    } else {
        lemma_total_update(g.drop_last(), k, v);
        assert(u.drop_last() =~= g.drop_last().update(k, v));
    }
}

/// Grouping keeps every component: the groups hold as many members as there are components.
pub proof fn lemma_group_total(comps: Seq<Component>)
    ensures
        group_total(groups_of(comps)) == comps.len(),
    decreases comps.len(),
{
    if comps.len() > 0 {
        let p = comps.drop_last();
        let c = comps.last();
        lemma_group_total(p);
        let gp = groups_of(p);
        lemma_group_index(gp, c.class, 0);
        match group_index(gp, c.class, 0) {
            Some(k0) => {
                lemma_total_update(gp, k0 as int, (c.class, gp[k0 as int].1.push(c.id)));
            },
            None => {
                assert(groups_of(comps).drop_last() =~= gp);
            },
        }
    } else {
        assert(groups_of(comps) =~= Seq::<(ComponentClass, Seq<EntityId>)>::empty());
    }
}

pub proof fn lemma_groups_shaped(comps: Seq<Component>)
    requires
        ids_of(comps).no_duplicates(),
    ensures
        groups_shaped(comps, groups_of(comps)),
    decreases comps.len(),
{
    if comps.len() > 0 {
        let p = comps.drop_last();
        let c = comps.last();
        let n = p.len() as int;
        assert(ids_of(p) =~= ids_of(comps).drop_last());
        assert(ids_of(comps)[n] == c.id);
        assert forall|i: int, j: int| 0 <= i < j < ids_of(p).len() implies ids_of(p)[i] != ids_of(p)[j] by {
            assert(ids_of(comps)[i] != ids_of(comps)[j]);
        }
        lemma_groups_shaped(p);
        let gp = groups_of(p);
        let g = groups_of(comps);
        assert(!ids_of(p).contains(c.id)) by {
            if ids_of(p).contains(c.id) {
                let i = choose|i: int| 0 <= i < ids_of(p).len() && ids_of(p)[i] == c.id;
                assert(ids_of(comps)[i] == ids_of(comps)[n]);
            }
        }
        assert forall|k: int| 0 <= k < gp.len() implies !(#[trigger] gp[k]).1.contains(c.id) by {
            if gp[k].1.contains(c.id) {
                let m = choose|m: int| 0 <= m < gp[k].1.len() && gp[k].1[m] == c.id;
                assert(ids_of(p).contains(gp[k].1[m]));
            }
        }
        assert forall|id: EntityId| ids_of(p).contains(id) implies ids_of(comps).contains(id) by {
            let i = choose|i: int| 0 <= i < ids_of(p).len() && ids_of(p)[i] == id;
            assert(ids_of(comps)[i] == id);
        }
        assert(ids_of(comps).contains(c.id));
        lemma_group_index(gp, c.class, 0);
        match group_index(gp, c.class, 0) {
            Some(k0) => {
                let k0 = k0 as int;
                let nv = (c.class, gp[k0].1.push(c.id));
                assert(g == gp.update(k0, nv));
                lemma_total_update(gp, k0, nv);
                assert forall|k: int| 0 <= k < g.len() implies (#[trigger] g[k]).1.len() > 0
                    && g[k].1.no_duplicates() by {
                    if k == k0 {
                        assert(gp[k0].1.no_duplicates());
                        assert(!gp[k0].1.contains(c.id));
                        assert forall|a: int, b: int| 0 <= a < b < g[k].1.len() implies g[k].1[a]
                            != g[k].1[b] by {
                            if b == gp[k0].1.len() {
                                assert(gp[k0].1.contains(gp[k0].1[a]));
                            }
                        }
                    }
                }
                assert forall|j: int, k: int, x: EntityId|
                    0 <= j < g.len() && 0 <= k < g.len() && j != k && (#[trigger] g[j].1.contains(x))
                        implies !(#[trigger] g[k].1.contains(x)) by {
                    if j == k0 {
                        if x == c.id {
                            assert(!gp[k].1.contains(c.id));
                        } else {
                            let m = choose|m: int| 0 <= m < g[j].1.len() && g[j].1[m] == x;
                            assert(gp[j].1.contains(x)) by {
                                assert(gp[j].1[m] == x);
                            }
                            if g[k].1.contains(x) {
                                assert(gp[k].1 == g[k].1);
                            }
                        }
                    } else if k == k0 {
                        assert(gp[j].1 == g[j].1);
                        if g[k].1.contains(x) {
                            let m = choose|m: int| 0 <= m < g[k].1.len() && g[k].1[m] == x;
                            if m < gp[k0].1.len() {
                                assert(gp[k0].1[m] == x);
                                assert(gp[k0].1.contains(x));
                            } else {
                                assert(!gp[j].1.contains(c.id));
                            }
                        }
                    } else {
                        assert(gp[j].1 == g[j].1);
                        assert(gp[k].1 == g[k].1);
                    }
                }
                assert forall|k: int, m: int|
                    0 <= k < g.len() && 0 <= m < g[k].1.len() implies ids_of(comps).contains(
                        #[trigger] g[k].1[m],
                    ) by {
                    if k == k0 && m == gp[k0].1.len() {
                    } else {
                        assert(g[k].1[m] == gp[k].1[m]);
                        assert(ids_of(p).contains(gp[k].1[m]));
                    }
                }
            },
            None => {
                let nv = (c.class, seq![c.id]);
                assert(g == gp.push(nv));
                assert(g.drop_last() =~= gp);
                assert forall|k: int| 0 <= k < g.len() implies (#[trigger] g[k]).1.len() > 0
                    && g[k].1.no_duplicates() by {
                    if k < gp.len() {
                        assert(g[k] == gp[k]);
                    }
                }
                assert forall|j: int, k: int, x: EntityId|
                    0 <= j < g.len() && 0 <= k < g.len() && j != k && (#[trigger] g[j].1.contains(x))
                        implies !(#[trigger] g[k].1.contains(x)) by {
                    if j == gp.len() {
                        assert(g[j].1[0] == c.id);
                        assert(x == c.id);
                        assert(g[k] == gp[k]);
                    } else if k == gp.len() {
                        assert(g[j] == gp[j]);
                        if g[k].1.contains(x) {
                            assert(x == c.id);
                        }
                    } else {
                        assert(g[j] == gp[j]);
                        assert(g[k] == gp[k]);
                    }
                }
                assert forall|j: int, k: int| 0 <= j < k < g.len() implies #[trigger] g[j].0
                    != #[trigger] g[k].0 by {
                    assert(g[j] == gp[j]);
                    if k < gp.len() {
                        assert(g[k] == gp[k]);
                    }
                }
                assert forall|k: int, m: int|
                    0 <= k < g.len() && 0 <= m < g[k].1.len() implies ids_of(comps).contains(
                        #[trigger] g[k].1[m],
                    ) by {
                    if k < gp.len() {
                        assert(g[k] == gp[k]);
                        assert(ids_of(p).contains(gp[k].1[m]));
                    }
                }
            },
        }
    } else {
        assert(groups_of(comps) =~= Seq::<(ComponentClass, Seq<EntityId>)>::empty());
    }
}

/// Grouping leaves no component out: every component's id is in some group.
pub proof fn lemma_groups_cover(comps: Seq<Component>)
    ensures
        forall|c: int|
            0 <= c < comps.len() ==> exists|k: int|
                0 <= k < groups_of(comps).len() && #[trigger] groups_of(comps)[k].1.contains(
                    (#[trigger] comps[c]).id,
                ),
    decreases comps.len(),
{
    if comps.len() > 0 {
        let p = comps.drop_last();
        let last = comps.last();
        lemma_groups_cover(p);
        let gp = groups_of(p);
        let g = groups_of(comps);
        lemma_group_index(gp, last.class, 0);
        match group_index(gp, last.class, 0) {
            Some(k0) => {
                let k0 = k0 as int;
                assert(g == gp.update(k0, (last.class, gp[k0].1.push(last.id))));
                assert forall|c: int| 0 <= c < comps.len() implies exists|k: int|
                    0 <= k < g.len() && #[trigger] g[k].1.contains((#[trigger] comps[c]).id) by {
                    if c == comps.len() - 1 {
                        assert(g[k0].1[gp[k0].1.len() as int] == last.id);
                        assert(g[k0].1.contains(last.id));
                    } else {
                        assert(comps[c] == p[c]);
                        let k = choose|k: int| 0 <= k < gp.len() && #[trigger] gp[k].1.contains(p[c].id);
                        let w = choose|w: int| 0 <= w < gp[k].1.len() && gp[k].1[w] == p[c].id;
                        if k == k0 {
                            assert(g[k].1[w] == p[c].id);
                        } else {
                            assert(g[k] == gp[k]);
                        }
                        assert(g[k].1.contains(comps[c].id));
                    }
                }
            },
            None => {
                assert(g == gp.push((last.class, seq![last.id])));
                assert forall|c: int| 0 <= c < comps.len() implies exists|k: int|
                    0 <= k < g.len() && #[trigger] g[k].1.contains((#[trigger] comps[c]).id) by {
                    if c == comps.len() - 1 {
                        let k = gp.len() as int;
                        assert(g[k].1[0] == last.id);
                        assert(g[k].1.contains(comps[c].id));
                    } else {
                        assert(comps[c] == p[c]);
                        let k = choose|k: int| 0 <= k < gp.len() && #[trigger] gp[k].1.contains(p[c].id);
                        assert(g[k] == gp[k]);
                        assert(g[k].1.contains(comps[c].id));
                    }
                }
            },
        }
    }
}

/// Group components by class in first-appearance order.
pub fn group_by_class(components: &Vec<Component>) -> (r: Vec<ClassGroup>)
    ensures
        group_views(r@) == groups_of(components@),
{
    let mut groups: Vec<ClassGroup> = Vec::new();
    let mut i: usize = 0;
    assert(group_views(groups@) =~= groups_of(components@.take(0)));
    while i < components.len()
        invariant
            i <= components.len(),
            group_views(groups@) == groups_of(components@.take(i as int)),
        decreases components.len() - i,
    {
        let c = &components[i];
        let ghost g0 = group_views(groups@);
        let mut k: usize = 0;
        while k < groups.len() && groups[k].class != c.class
            invariant
                k <= groups.len(),
                g0 == group_views(groups@),
                group_index(g0, c.class, 0) == group_index(g0, c.class, k as nat),
            decreases groups.len() - k,
        {
            k += 1;
        }
        proof {
            lemma_group_index(g0, c.class, k as nat);
            assert(components@.take(i + 1).drop_last() =~= components@.take(i as int));
        }
        if k < groups.len() {
            let mut members = copy_vec(&groups[k].components);
            members.push(c.id);
            let class = groups[k].class;
            groups.set(k, ClassGroup { class, components: members });
            proof {
                assert(group_views(groups@) =~= g0.update(k as int, (c.class, g0[k as int].1.push(c.id))));
            }
        } else {
            let mut members: Vec<EntityId> = Vec::new();
            members.push(c.id);
            groups.push(ClassGroup { class: c.class, components: members });
            proof {
                assert(group_views(groups@) =~= g0.push((c.class, seq![c.id])));
            }
        }
        i += 1;
    }
    assert(components@.take(components.len() as int) =~= components@);
    groups
}

/// One catalogued part: what a class is realized with.
#[derive(Debug)]
pub struct CatalogPart {
    pub mpn: String,
    pub manufacturer: String,
    pub lifecycle: PartLifecycle,
    pub datasheet: String,
}

/// The catalogued parts of one class: its default part, then the others it may be realized
/// with.
#[derive(Debug)]
pub struct ClassParts {
    pub default: CatalogPart,
    pub others: Vec<CatalogPart>,
}

impl ClassParts {
    /// Every catalogued part of the class, the default first.
    pub open spec fn members(&self) -> Seq<CatalogPart> {
        seq![self.default] + self.others@
    }

    /// The `i`-th catalogued part of the class.
    pub fn member(&self, i: usize) -> (r: &CatalogPart)
        requires
            i < self.members().len(),
        ensures
            *r == self.members()[i as int],
    {
        if i == 0 {
            &self.default
        } else {
            &self.others[i - 1]
        }
    }

    pub fn len(&self) -> (r: usize)
        requires
            self.others@.len() < usize::MAX,
        ensures
            r == self.members().len(),
    {
        self.others.len() + 1
    }
}

/// The approved catalog: for each component class, the parts it may be realized with.
#[derive(Debug)]
pub struct PartCatalog {
    pub connector: ClassParts,
    pub regulator: ClassParts,
    pub ic: ClassParts,
    pub resistor: ClassParts,
    pub capacitor: ClassParts,
}

impl PartCatalog {
    pub open spec fn spec_class_parts(&self, class: ComponentClass) -> ClassParts {
        match class {
            ComponentClass::Connector => self.connector,
            ComponentClass::Regulator => self.regulator,
            ComponentClass::Ic => self.ic,
            ComponentClass::Resistor => self.resistor,
            ComponentClass::Capacitor => self.capacitor,
        }
    }

    /// Every catalogued part of a class, the default first.
    pub open spec fn spec_members(&self, class: ComponentClass) -> Seq<CatalogPart> {
        self.spec_class_parts(class).members()
    }

    pub open spec fn spec_part_for(&self, class: ComponentClass) -> CatalogPart {
        self.spec_class_parts(class).default
    }

    /// The catalogued parts of a class.
    pub fn class_parts(&self, class: ComponentClass) -> (r: &ClassParts)
        ensures
            *r == self.spec_class_parts(class),
    {
        match class {
            ComponentClass::Connector => &self.connector,
            ComponentClass::Regulator => &self.regulator,
            ComponentClass::Ic => &self.ic,
            ComponentClass::Resistor => &self.resistor,
            ComponentClass::Capacitor => &self.capacitor,
        }
    }

    /// The default catalogued part for a class.
    pub fn part_for(&self, class: ComponentClass) -> (r: &CatalogPart)
        ensures
            *r == self.spec_part_for(class),
    {
        &self.class_parts(class).default
    }
}

/// The outcome of checking one class's proposal against the catalog.
#[derive(Debug)]
pub enum Selection {
    /// Commit the class's catalogued part at this position (a matching proposal, or the
    /// default when there is none).
    Use(usize),
    /// The model proposed a part the catalog does not carry for this class.
    Reject(String),
}

/// The first candidate, from position `i` on, whose label names the class.
pub open spec fn proposal_from(cands: Seq<CandidatePart>, class: ComponentClass, i: nat) -> Option<
    CandidatePart,
>
    decreases cands.len() - i,
{
    if i >= cands.len() {
        None
    } else if label_names(cands[i as int].component_class@, class) {
        Some(cands[i as int])
    } else {
        proposal_from(cands, class, i + 1)
    }
}

/// The position of the first catalogued part, from position `i` on, whose number is `mpn` up
/// to ASCII case.
pub open spec fn match_from(members: Seq<CatalogPart>, mpn: Seq<char>, i: nat) -> Option<nat>
    decreases members.len() - i,
{
    if i >= members.len() {
        None
    } else if spec_eq_ignore_ascii_case(mpn, members[i as int].mpn@) {
        Some(i)
    } else {
        match_from(members, mpn, i + 1)
    }
}

/// The choice for a class: the position of the catalogued part to use (the first one whose
/// number the model proposed, trimmed and up to ASCII case, or the default when the model
/// proposed nothing for the class), or the proposed number when the catalog does not carry it
/// for the class.
pub open spec fn choice(catalog: &PartCatalog, class: ComponentClass, cands: Seq<CandidatePart>) -> Result<
    nat,
    Seq<char>,
> {
    match proposal_from(cands, class, 0) {
        Some(p) => match match_from(catalog.spec_members(class), spec_trim(p.mpn@), 0) {
            Some(i) => Ok(i),
            None => Err(p.mpn@),
        },
        None => Ok(0),
    }
}

/// The catalogued part chosen for an accepted class.
pub open spec fn chosen(catalog: &PartCatalog, class: ComponentClass, cands: Seq<CandidatePart>) -> CatalogPart {
    catalog.spec_members(class)[choice(catalog, class, cands)->Ok_0 as int]
}

pub proof fn lemma_match_from(members: Seq<CatalogPart>, mpn: Seq<char>, i: nat)
    ensures
        match_from(members, mpn, i) matches Some(k) ==> i <= k < members.len(),
    decreases members.len() - i,
{
    if i < members.len() {
        lemma_match_from(members, mpn, i + 1);
    }
}

/// Check the model's proposal for one class against the authoritative catalog.
pub fn validate_selection(catalog: &PartCatalog, class: ComponentClass, response: &ReasoningResponse) -> (r:
    Selection)
    ensures
        match choice(catalog, class, response.part_candidates@) {
            Ok(i) => r matches Selection::Use(j) && j == i,
            Err(m) => r matches Selection::Reject(s) && s@ == m,
        },
{
    let parts = catalog.class_parts(class);
    let cands = &response.part_candidates;
    let mut i: usize = 0;
    while i < cands.len()
        invariant
            i <= cands.len(),
            proposal_from(cands@, class, 0) == proposal_from(cands@, class, i as nat),
            *parts == catalog.spec_class_parts(class),
            cands@ == response.part_candidates@,
        decreases cands.len() - i,
    {
        if class_matches(cands[i].component_class.as_str(), class) {
            let m = chars_of(cands[i].mpn.as_str());
            let t = trim(&m);
            let ghost members = parts.members();
            assert(members[0] == parts.default);
            let c0 = chars_of(parts.default.mpn.as_str());
            if eq_ignore_ascii_case(&t, &c0) {
                return Selection::Use(0);
            }
            let mut j: usize = 0;
            while j < parts.others.len()
                invariant
                    j <= parts.others@.len(),
                    members == parts.members(),
                    members.len() == parts.others@.len() + 1,
                    i < cands@.len(),
                    proposal_from(cands@, class, 0) == Some(cands@[i as int]),
                    t@ == spec_trim(cands@[i as int].mpn@),
                    *parts == catalog.spec_class_parts(class),
                    cands@ == response.part_candidates@,
                    match_from(members, t@, 0) == match_from(members, t@, (j + 1) as nat),
                decreases parts.others@.len() - j,
            {
                assert(members[j + 1] == parts.others@[j as int]);
                let c = chars_of(parts.others[j].mpn.as_str());
                if eq_ignore_ascii_case(&t, &c) {
                    return Selection::Use(j + 1);
                }
                j += 1;
            }
            return Selection::Reject(cands[i].mpn.clone());
        }
        i += 1;
    }
    Selection::Use(0)
}

/// What the part-selection agent asks the model: a part number per class present.
pub open spec fn part_request_ok(
    r: ReasoningRequest,
    model_id: Seq<char>,
    classes: Seq<ComponentClass>,
) -> bool {
    &&& r.model_id@ == model_id
    &&& r.system@
        == "You are a procurement engineer. For each component class, propose the manufacturer part number of an APPROVED-CATALOG part that realizes it. A part number that is not in the approved catalog will be rejected."@
    &&& r.prompt@ == part_prompt_spec(classes)
    &&& r.schema_name@ == "part_candidates_v1"@
    &&& r.temperature == 0
    &&& r.seed == stable_seed_spec(classes)
}

pub open spec fn group_classes(g: Seq<(ComponentClass, Seq<EntityId>)>) -> Seq<ComponentClass> {
    g.map_values(|x: (ComponentClass, Seq<EntityId>)| x.0)
}

/// The part-selection request for the given classes.
pub fn part_request(classes: &Vec<ComponentClass>, model_id: &str) -> (r: ReasoningRequest)
    ensures
        part_request_ok(r, model_id@, classes@),
{
    ReasoningRequest {
        model_id: model_id.to_owned(),
        system: "You are a procurement engineer. For each component class, propose the manufacturer part number of an APPROVED-CATALOG part that realizes it. A part number that is not in the approved catalog will be rejected.".to_owned(),
        prompt: build_prompt(classes),
        schema_name: "part_candidates_v1".to_owned(),
        temperature: 0,
        seed: stable_seed(classes),
    }
}

fn classes_of(groups: &Vec<ClassGroup>) -> (r: Vec<ComponentClass>)
    ensures
        r@ == group_classes(group_views(groups@)),
{
    let mut r: Vec<ComponentClass> = Vec::new();
    let mut i: usize = 0;
    while i < groups.len()
        invariant
            i <= groups.len(),
            r@ == group_classes(group_views(groups@)).take(i as int),
        decreases groups.len() - i,
    {
        r.push(groups[i].class);
        assert(r@ =~= group_classes(group_views(groups@)).take(i + 1));
        i += 1;
    }
    assert(group_classes(group_views(groups@)).take(groups.len() as int) =~= group_classes(
        group_views(groups@),
    ));
    r
}

fn copy_components(v: &Vec<Component>) -> (r: Vec<Component>)
    ensures
        r@ == v@,
{
    let mut r: Vec<Component> = Vec::new();
    let mut i: usize = 0;
    while i < v.len()
        invariant
            i <= v.len(),
            r@ == v@.take(i as int),
        decreases v.len() - i,
    {
        r.push(v[i].clone());
        assert(r@ =~= v@.take(i + 1));
        i += 1;
    }
    assert(v@.take(v.len() as int) =~= v@);
    r
}

/// A part already ordered: its part number and id.
struct OrderedPart {
    mpn: String,
    id: EntityId,
}

/// One refused proposal as the outcome names it: `Class <- "MPN"`.
pub open spec fn refusal_entry(e: (ComponentClass, Seq<char>)) -> Seq<char> {
    class_name_spec(e.0) + " <- \""@ + e.1 + "\""@
}

/// Refused proposals as plain values.
pub open spec fn refusal_views(r: Seq<(ComponentClass, String)>) -> Seq<(ComponentClass, Seq<char>)> {
    r.map_values(|e: (ComponentClass, String)| (e.0, e.1@))
}

/// The refused proposals, comma separated, in order.
pub open spec fn refusal_list(r: Seq<(ComponentClass, Seq<char>)>) -> Seq<char>
    decreases r.len(),
{
    if r.len() == 0 {
        Seq::empty()
    } else if r.len() == 1 {
        refusal_entry(r[0])
    } else {
        refusal_list(r.drop_last()) + ", "@ + refusal_entry(r.last())
    }
}

/// The outcome text of a phase that refused proposals.
pub open spec fn rejection_text(r: Seq<(ComponentClass, Seq<char>)>) -> Seq<char> {
    "rejected "@ + decimal_digits(r.len()) + " non-catalog part proposal(s) (not in the approved catalog): "@
        + refusal_list(r)
}

/// The outcome text of a phase that refused proposals: how many, then `Class <- "MPN"` for each.
fn rejection_message(rejected: &Vec<(ComponentClass, String)>) -> (r: String)
    ensures
        r@ == rejection_text(refusal_views(rejected@)),
{
    let mut detail = String::new();
    let mut i: usize = 0;
    assert(detail@ =~= refusal_list(refusal_views(rejected@).take(0)));
    while i < rejected.len()
        invariant
            i <= rejected.len(),
            detail@ == refusal_list(refusal_views(rejected@).take(i as int)),
        decreases rejected.len() - i,
    {
        let ghost before = detail@;
        if i > 0 {
            detail.append(", ");
        }
        detail.append(class_name(rejected[i].0));
        detail.append(" <- \"");
        detail.append(rejected[i].1.as_str());
        detail.append("\"");
        proof {
            let t = refusal_views(rejected@).take(i + 1);
            assert(t.drop_last() =~= refusal_views(rejected@).take(i as int));
            assert(t.last() == (rejected@[i as int].0, rejected@[i as int].1@));
            reveal_strlit(", ");
            reveal_strlit(" <- \"");
            reveal_strlit("\"");
            if i == 0 {
                assert(detail@ =~= refusal_entry(t[0]));
            } else {
                assert(detail@ =~= before + ", "@ + refusal_entry(t.last()));
            }
        }
        i += 1;
    }
    assert(refusal_views(rejected@).take(rejected.len() as int) =~= refusal_views(rejected@));
    let mut m = "rejected ".to_owned();
    let n = decimal_text(rejected.len() as u128);
    m.append(n.as_str());
    m.append(" non-catalog part proposal(s) (not in the approved catalog): ");
    m.append(detail.as_str());
    proof {
        reveal_strlit("rejected ");
        reveal_strlit(" non-catalog part proposal(s) (not in the approved catalog): ");
        assert(m@ =~= rejection_text(refusal_views(rejected@)));
    }
    m
}

/// Submit one request on the agent's behalf, keeping the design's integrity.
fn propose(core: &mut RuntimeCore, request: CapabilityRequest) -> (ok: bool)
    requires
        old(core).inv(),
        integrity(old(core).spec_state()),
    ensures
        final(core).inv(),
        integrity(final(core).spec_state()),
        final(core).spec_autonomy() == old(core).spec_autonomy(),
        final(core).spec_next_id() == old(core).spec_next_id(),
        old(core).spec_log().len() <= final(core).spec_log().len(),
        forall|i: int|
            0 <= i < old(core).spec_log().len() ==> #[trigger] final(core).spec_log()[i] == old(
                core,
            ).spec_log()[i],
        ok ==> decide(old(core).spec_state(), old(core).spec_autonomy(), request) is Ok
            && final(core).spec_state() == fold_events(
            old(core).spec_state(),
            decide(old(core).spec_state(), old(core).spec_autonomy(), request)->Ok_0,
        ),
        !ok ==> final(core).spec_state() == old(core).spec_state(),
        !ok ==> final(core).spec_log().len() == old(core).spec_log().len(),
        ok ==> final(core).spec_log().len() == old(core).spec_log().len() + decide(
            old(core).spec_state(),
            old(core).spec_autonomy(),
            request,
        )->Ok_0.len(),
        old(core).spec_log().len() + request_size(request) < u64::MAX && decide(
            old(core).spec_state(),
            old(core).spec_autonomy(),
            request,
        ) is Ok ==> ok,
{
    let ghost before = *core;
    let res = core.submit(request);
    proof {
        if before.spec_log().len() + request_size(request) < u64::MAX {
            lemma_invoke_keeps_integrity(before, *core, request, res);
        }
        assert(crate::state::log_events(core.spec_log()).len() == core.spec_log().len());
        assert(crate::state::log_events(before.spec_log()).len() == before.spec_log().len());
    }
    res.is_ok()
}

/// Whether the first event `after` added to `before`'s log is the part-selection reasoning call
/// for `before`'s components.
pub open spec fn records_request(before: RuntimeCore, after: RuntimeCore, model_id: Seq<char>) -> bool {
    &&& after.spec_log().len() > before.spec_log().len()
    &&& match after.spec_log()[before.spec_log().len() as int].event {
        crate::ports::Event::ReasoningCall { request, response } => part_request_ok(
            request,
            model_id,
            group_classes(groups_of(before.spec_state().components)),
        ),
        _ => false,
    }
}

/// The part proposals of a reply; none when the engine gave no answer.
pub open spec fn reply_candidates(reply: Option<ReasoningResponse>) -> Seq<CandidatePart> {
    match reply {
        Some(resp) => resp.part_candidates@,
        None => Seq::empty(),
    }
}

/// Whether the model proposed, for some class present, a part the catalog does not carry.
pub open spec fn refuses_some(
    catalog: &PartCatalog,
    comps: Seq<Component>,
    reply: Option<ReasoningResponse>,
) -> bool {
    let g = groups_of(comps);
    let cands = reply_candidates(reply);
    exists|k: int| 0 <= k < g.len() && (#[trigger] choice(catalog, g[k].0, cands)) is Err
}

/// Whether the choice on each of the first `n` classes is mirrored by the selections.
pub open spec fn verdicts_match(
    sel: Seq<Selection>,
    catalog: &PartCatalog,
    g: Seq<(ComponentClass, Seq<EntityId>)>,
    cands: Seq<CandidatePart>,
    n: int,
) -> bool {
    forall|k: int|
        0 <= k < n ==> match choice(catalog, g[k].0, cands) {
            Ok(i) => (#[trigger] sel[k]) matches Selection::Use(j) && j == i,
            Err(m) => sel[k] matches Selection::Reject(s) && s@ == m,
        }
}

/// The proposals refused among the first `n` classes, in class order: each class with the
/// part number the model proposed for it.
pub open spec fn refusals(
    catalog: &PartCatalog,
    g: Seq<(ComponentClass, Seq<EntityId>)>,
    cands: Seq<CandidatePart>,
    n: nat,
) -> Seq<(ComponentClass, Seq<char>)>
    decreases n,
{
    if n == 0 {
        Seq::empty()
    } else {
        let k = (n - 1) as int;
        let prev = refusals(catalog, g, cands, (n - 1) as nat);
        match choice(catalog, g[k].0, cands) {
            Err(m) => prev.push((g[k].0, m)),
            Ok(_) => prev,
        }
    }
}

/// No component of a group is on any of `lines`.
pub open spec fn uncovered_group(lines: Seq<BomLineItemView>, grp: Seq<EntityId>) -> bool {
    forall|m: int| 0 <= m < grp.len() ==> !covered(lines, #[trigger] grp[m])
}

/// The positions, among the first `n` class groups, of the classes that get a new BOM line:
/// those the catalog accepts whose components none of the existing `lines` covers, in order.
pub open spec fn accepted_upto(
    catalog: &PartCatalog,
    g: Seq<(ComponentClass, Seq<EntityId>)>,
    cands: Seq<CandidatePart>,
    lines: Seq<BomLineItemView>,
    n: nat,
) -> Seq<int>
    decreases n,
{
    if n == 0 {
        Seq::empty()
    } else {
        let k = (n - 1) as int;
        let prev = accepted_upto(catalog, g, cands, lines, (n - 1) as nat);
        if choice(catalog, g[k].0, cands) is Ok && uncovered_group(lines, g[k].1) {
            prev.push(k)
        } else {
            prev
        }
    }
}

pub proof fn lemma_accepted_upto(
    catalog: &PartCatalog,
    g: Seq<(ComponentClass, Seq<EntityId>)>,
    cands: Seq<CandidatePart>,
    lines: Seq<BomLineItemView>,
    n: nat,
)
    ensures
        forall|i: int|
            0 <= i < accepted_upto(catalog, g, cands, lines, n).len() ==> 0 <= #[trigger] accepted_upto(
                catalog,
                g,
                cands,
                lines,
                n,
            )[i] < n && choice(catalog, g[accepted_upto(catalog, g, cands, lines, n)[i]].0, cands) is Ok
                && uncovered_group(lines, g[accepted_upto(catalog, g, cands, lines, n)[i]].1),
        forall|i: int, j: int|
            0 <= i < j < accepted_upto(catalog, g, cands, lines, n).len() ==> #[trigger] accepted_upto(
                catalog,
                g,
                cands,
                lines,
                n,
            )[i] < #[trigger] accepted_upto(catalog, g, cands, lines, n)[j],
        lines.len() == 0 && (forall|k: int| 0 <= k < n ==> (#[trigger] choice(catalog, g[k].0, cands)) is Ok)
            ==> accepted_upto(catalog, g, cands, lines, n) == Seq::new(n, |i: int| i),
        refusals(catalog, g, cands, n).len() > 0 ==> exists|k: int|
            0 <= k < n && (#[trigger] choice(catalog, g[k].0, cands)) is Err,
    decreases n,
{
    if n > 0 {
        lemma_accepted_upto(catalog, g, cands, lines, (n - 1) as nat);
        let k = n - 1;
        if lines.len() == 0 && forall|q: int| 0 <= q < n ==> (#[trigger] choice(catalog, g[q].0, cands)) is Ok {
            assert(choice(catalog, g[k].0, cands) is Ok);
            assert(uncovered_group(lines, g[k as int].1));
            assert(accepted_upto(catalog, g, cands, lines, n) =~= Seq::new(n, |i: int| i));
        }
        if refusals(catalog, g, cands, n).len() > 0 && choice(catalog, g[k].0, cands) is Ok {
            let q = choose|q: int| 0 <= q < k && (#[trigger] choice(catalog, g[q].0, cands)) is Err;
        }
    } else {
        assert(accepted_upto(catalog, g, cands, lines, n) =~= Seq::new(n, |i: int| i));
    }
}

/// A part built field for field from one catalog record.
pub open spec fn from_record(p: Part, c: CatalogPart) -> bool {
    &&& p.mpn@ == c.mpn@
    &&& p.manufacturer@ == c.manufacturer@
    &&& p.lifecycle == c.lifecycle
    &&& p.datasheet@ == c.datasheet@
}

/// A part built from one of the catalog's records.
pub open spec fn from_catalog(p: Part, catalog: &PartCatalog) -> bool {
    exists|c: ComponentClass, i: int|
        0 <= i < catalog.spec_members(c).len() && #[trigger] from_record(
            p,
            catalog.spec_members(c)[i],
        )
}

/// `after` keeps every part of `before`, in place; every part it adds was built from a
/// catalog record, with a number that no part before it carries.
pub open spec fn parts_from_catalog(before: Seq<Part>, after: Seq<Part>, catalog: &PartCatalog) -> bool {
    &&& before.len() <= after.len()
    &&& forall|j: int| 0 <= j < before.len() ==> #[trigger] after[j] == before[j]
    &&& forall|j: int| before.len() <= j < after.len() ==> from_catalog(#[trigger] after[j], catalog)
    &&& forall|i: int, j: int|
        0 <= i < j && before.len() <= j < after.len() ==> #[trigger] after[i].mpn@
            != #[trigger] after[j].mpn@
}

/// Whether sourcing the design goes through cleanly: there is room for it, component ids are
/// distinct, no committed part has the null id, and a line's quantity can count its
/// components.
pub open spec fn sources_cleanly(
    core: RuntimeCore,
    catalog: &PartCatalog,
    reply: Option<ReasoningResponse>,
) -> bool {
    let s = core.spec_state();
    &&& source_room(core, catalog, reply)
    &&& ids_of(s.components).no_duplicates()
    &&& forall|j: int| 0 <= j < s.parts.len() ==> (#[trigger] s.parts[j]).id.0 != 0
    &&& s.components.len() <= u32::MAX
}

/// Whether every part chosen for a class present has a number, and the id space and the log
/// have room for every part, line and provenance link sourcing could commit.
pub open spec fn source_room(
    core: RuntimeCore,
    catalog: &PartCatalog,
    reply: Option<ReasoningResponse>,
) -> bool {
    let s = core.spec_state();
    let g = groups_of(s.components);
    let cands = reply_candidates(reply);
    &&& forall|k: int|
        0 <= k < g.len() && choice(catalog, g[k].0, cands) is Ok ==> !spec_is_blank(
            #[trigger] chosen(catalog, g[k].0, cands).mpn@,
        )
    &&& core.spec_next_id() + 3 * g.len() + s.components.len() < u128::MAX
    &&& core.spec_log().len() + 3 * g.len() + s.components.len() + 2 < u64::MAX
}

/// A BOM line that covers a class group with a part carrying the number chosen for it.
pub open spec fn line_sourced(
    line: BomLineItemView,
    group: (ComponentClass, Seq<EntityId>),
    parts: Seq<Part>,
    catalog: &PartCatalog,
    cands: Seq<CandidatePart>,
) -> bool {
    &&& line.components == group.1
    &&& line.quantity as int == group.1.len()
    &&& exists|j: int|
        0 <= j < parts.len() && (#[trigger] parts[j]).id == line.part && parts[j].mpn@
            == chosen(catalog, group.0, cands).mpn@
}

/// Whether some provenance link says `from` traces to `to`.
pub open spec fn traces_to(links: Seq<ProvenanceLink>, from: EntityId, to: EntityId) -> bool {
    exists|i: int|
        0 <= i < links.len() && (#[trigger] links[i]).from == from && links[i].to == to
            && links[i].relation == RelationType::TracesTo
}

/// A BOM line traces to its part and to every component it covers.
pub open spec fn line_traced(line: BomLineItemView, links: Seq<ProvenanceLink>) -> bool {
    &&& traces_to(links, line.id, line.part)
    &&& forall|m: int|
        0 <= m < line.components.len() ==> traces_to(links, line.id, #[trigger] line.components[m])
}

/// `t` is `s` sourced: the same components, the existing BOM lines kept, and after them one
/// new line per accepted class group none of whose components an existing line covers, in
/// group order, each covering its group with the part chosen for it and tracing to that part
/// and those components; no new line covers a component of a refused class.
pub open spec fn sourced(
    s: StateView,
    t: StateView,
    catalog: &PartCatalog,
    reply: Option<ReasoningResponse>,
) -> bool {
    let g = groups_of(s.components);
    let cands = reply_candidates(reply);
    let old_lines = s.bom_line_items;
    let o = old_lines.len();
    let acc = accepted_upto(catalog, g, cands, old_lines, g.len());
    &&& t.components == s.components
    &&& t.bom_line_items.len() == o + acc.len()
    &&& forall|i: int| 0 <= i < o ==> #[trigger] t.bom_line_items[i] == old_lines[i]
    &&& forall|i: int|
        0 <= i < acc.len() ==> line_sourced(
            #[trigger] t.bom_line_items[o + i],
            g[acc[i]],
            t.parts,
            catalog,
            cands,
        )
    &&& forall|i: int| 0 <= i < acc.len() ==> line_traced(#[trigger] t.bom_line_items[o + i], t.links)
    &&& forall|i: int, k: int, x: EntityId|
        o <= i < t.bom_line_items.len() && 0 <= k < g.len() && choice(catalog, g[k].0, cands) is Err
            && #[trigger] g[k].1.contains(x) ==> !(#[trigger] t.bom_line_items[i]).components.contains(x)
}

proof fn lemma_traced_grow(line: BomLineItemView, links: Seq<ProvenanceLink>, more: Seq<ProvenanceLink>)
    requires
        line_traced(line, links),
    ensures
        line_traced(line, links + more),
{
    let i = choose|i: int|
        0 <= i < links.len() && (#[trigger] links[i]).from == line.id && links[i].to == line.part
            && links[i].relation == RelationType::TracesTo;
    assert((links + more)[i] == links[i]);
    assert forall|m: int| 0 <= m < line.components.len() implies traces_to(
        links + more,
        line.id,
        #[trigger] line.components[m],
    ) by {
        assert(traces_to(links, line.id, line.components[m]));
        let w = choose|w: int|
            0 <= w < links.len() && (#[trigger] links[w]).from == line.id && links[w].to
                == line.components[m] && links[w].relation == RelationType::TracesTo;
        assert((links + more)[w] == links[w]);
    }
}

proof fn lemma_line_sourced_push(
    line: BomLineItemView,
    group: (ComponentClass, Seq<EntityId>),
    parts: Seq<Part>,
    p: Part,
    catalog: &PartCatalog,
    cands: Seq<CandidatePart>,
)
    requires
        line_sourced(line, group, parts, catalog, cands),
    ensures
        line_sourced(line, group, parts.push(p), catalog, cands),
{
    let j = choose|j: int|
        0 <= j < parts.len() && (#[trigger] parts[j]).id == line.part && parts[j].mpn@
            == chosen(catalog, group.0, cands).mpn@;
    assert(parts.push(p)[j] == parts[j]);
}

proof fn lemma_total_step(g: Seq<(ComponentClass, Seq<EntityId>)>, i: int)
    requires
        0 <= i < g.len(),
    ensures
        group_total(g.take(i + 1)) == group_total(g.take(i)) + g[i].1.len(),
{
    assert(g.take(i + 1).drop_last() =~= g.take(i));
}

proof fn lemma_total_prefix(g: Seq<(ComponentClass, Seq<EntityId>)>, i: int)
    requires
        0 <= i <= g.len(),
    ensures
        group_total(g.take(i)) <= group_total(g),
    decreases g.len() - i,
{
    if i < g.len() {
        lemma_total_step(g, i);
        lemma_total_prefix(g, i + 1);
    } else {
        assert(g.take(i) =~= g);
    }
}

/// Components that are committed and on no line yet raise no BOM problem.
proof fn lemma_no_bom_problem(s: StateView, cids: Seq<EntityId>, i: nat)
    requires
        forall|m: int| 0 <= m < cids.len() ==> has_id(comp_ids(s), #[trigger] cids[m]),
        forall|m: int| 0 <= m < cids.len() ==> !covered(s.bom_line_items, #[trigger] cids[m]),
    ensures
        bom_problem_from(s, cids, i) is None,
    decreases cids.len() - i,
{
    if i < cids.len() {
        assert(has_id(comp_ids(s), cids[i as int]));
        assert(!covered(s.bom_line_items, cids[i as int]));
        lemma_no_bom_problem(s, cids, i + 1);
    }
}

/// The part-selection agent: it asks the model for a part number per component class, keeps
/// only proposals the catalog carries, and commits parts and BOM lines through the seam.
pub struct PartSelectionAgent {}

impl PartSelectionAgent {
    pub fn new() -> (r: PartSelectionAgent) {
        PartSelectionAgent {  }
    }

    pub fn name(&self) -> (r: &'static str)
        ensures
            r@ == "PartSelectionAgent"@,
    {
        "PartSelectionAgent"
    }

    /// The judgement the agent asks for on a set of components: none when there is nothing to
    /// source.
    pub fn request_for(&self, components: &Vec<Component>, model_id: &str) -> (r: Option<
        ReasoningRequest,
    >)
        ensures
            components@.len() == 0 ==> r is None,
            components@.len() > 0 ==> (r matches Some(q) && part_request_ok(
                q,
                model_id@,
                group_classes(groups_of(components@)),
            )),
    {
        if components.len() == 0 {
            return None;
        }
        let groups = group_by_class(components);
        let classes = classes_of(&groups);
        Some(part_request(&classes, model_id))
    }

    /// Source every component of the design. `reply` is what the reasoning engine answered
    /// the request of [`PartSelectionAgent::request_for`] with (`None` when it failed, which
    /// degrades to the catalog's own choice); an answer is recorded in the log before any part.
    /// Each class gets the catalogued part the model proposed for it (any part the catalog
    /// carries for the class) or, when the model is silent, the class's default; a part already
    /// ordered under that number is reused. A class whose proposal the catalog does not carry
    /// is refused: nothing is committed for it, the other classes are still sourced, and the
    /// activation fails naming the refused part numbers.
    #[verifier::rlimit(100)]
    pub fn activate(
        &mut self,
        core: &mut RuntimeCore,
        catalog: &PartCatalog,
        model_id: &str,
        reply: Option<ReasoningResponse>,
    ) -> (r: AgentOutcome)
        requires
            old(core).inv(),
            integrity(old(core).spec_state()),
        ensures
            final(core).inv(),
            integrity(final(core).spec_state()),
            final(core).spec_autonomy() == old(core).spec_autonomy(),
            old(core).spec_state().components.len() == 0 ==> (r == AgentOutcome::Success {
                committed: 0,
            }),
            old(core).spec_state().components.len() == 0 ==> final(core).spec_state() == old(
                core,
            ).spec_state() && final(core).spec_log() == old(core).spec_log()
                && final(core).spec_next_id() == old(core).spec_next_id(),
            old(core).spec_state().components.len() > 0 && reply is Some && old(core).spec_log().len()
                + 2 <= u64::MAX ==> records_request(*old(core), *final(core), model_id@),
            refuses_some(catalog, old(core).spec_state().components, reply) ==> (r is Failed),
            sources_cleanly(*old(core), catalog, reply) ==> sourced(
                old(core).spec_state(),
                final(core).spec_state(),
                catalog,
                reply,
            ),
            sources_cleanly(*old(core), catalog, reply) && !refuses_some(
                catalog,
                old(core).spec_state().components,
                reply,
            ) ==> r == (AgentOutcome::Success {
                committed: accepted_upto(
                    catalog,
                    groups_of(old(core).spec_state().components),
                    reply_candidates(reply),
                    old(core).spec_state().bom_line_items,
                    groups_of(old(core).spec_state().components).len(),
                ).len() as usize,
            }),
            sources_cleanly(*old(core), catalog, reply) && !refuses_some(
                catalog,
                old(core).spec_state().components,
                reply,
            ) && old(core).spec_state().bom_line_items.len() == 0 ==> r == (AgentOutcome::Success {
                committed: groups_of(old(core).spec_state().components).len() as usize,
            }),
            source_room(*old(core), catalog, reply) && refuses_some(
                catalog,
                old(core).spec_state().components,
                reply,
            ) ==> (r matches AgentOutcome::Failed(m) && m@ == rejection_text(
                refusals(
                    catalog,
                    groups_of(old(core).spec_state().components),
                    reply_candidates(reply),
                    groups_of(old(core).spec_state().components).len(),
                ),
            )),
            parts_from_catalog(old(core).spec_state().parts, final(core).spec_state().parts, catalog),
    {
        let ghost clean = sources_cleanly(*core, catalog, reply);
        let ghost fine = source_room(*core, catalog, reply);
        let ghost s_old = core.spec_state();
        let ghost ol = s_old.bom_line_items;
        let ghost next0 = core.spec_next_id();
        let ghost log0 = core.spec_log().len();
        let components = copy_components(&core.current_state().components);
        if components.len() == 0 {
            assert(groups_of(components@) =~= Seq::<(ComponentClass, Seq<EntityId>)>::empty());
            return AgentOutcome::Success { committed: 0 };
        }
        let groups = group_by_class(&components);
        let classes = classes_of(&groups);
        let request = part_request(&classes, model_id);
        let recorded = reply.is_some();
        let response = match reply {
            Some(resp) => resp,
            None => ReasoningResponse {
                candidates: Vec::new(),
                explanations: Vec::new(),
                part_candidates: Vec::new(),
                clarifying_questions: Vec::new(),
                raw: String::new(),
            },
        };
        let ghost g = groups_of(components@);
        let ghost cands = response.part_candidates@;
        proof {
            lemma_group_total(components@);
            if clean {
                lemma_groups_shaped(components@);
            }
        }
        // The verdicts on every class, before anything is committed.
        let mut verdicts: Vec<Selection> = Vec::new();
        let mut v: usize = 0;
        while v < groups.len()
            invariant
                v <= groups.len(),
                verdicts@.len() == v,
                group_views(groups@) == g,
                cands == response.part_candidates@,
                verdicts_match(verdicts@, catalog, g, cands, v as int),
            decreases groups.len() - v,
        {
            verdicts.push(validate_selection(catalog, groups[v].class, &response));
            v += 1;
        }
        let ghost start_len = core.spec_log().len();
        if recorded {
            if core.log_room() < 2 {
                return AgentOutcome::Failed("the event log is full".to_owned());
            }
            core.record_reasoning(request, response);
        }
        let ghost rec_len = core.spec_log().len();
        let ghost rec = if recorded {
            core.spec_log()[start_len as int]
        } else {
            arbitrary()
        };
        let mut ordered: Vec<OrderedPart> = Vec::new();
        let existing = &core.current_state().parts;
        let mut p: usize = 0;
        while p < existing.len()
            invariant
                p <= existing.len(),
                existing@ == core.spec_state().parts,
                ordered@.len() == p,
                forall|q: int|
                    0 <= q < p ==> (#[trigger] ordered@[q]).id == existing@[q].id
                        && ordered@[q].mpn@ == existing@[q].mpn@,
            decreases existing.len() - p,
        {
            let part = &existing[p];
            ordered.push(OrderedPart { mpn: part.mpn.clone(), id: part.id });
            p += 1;
        }
        proof {
            assert(g.take(0) =~= Seq::<(ComponentClass, Seq<EntityId>)>::empty());
        }
        let mut committed: usize = 0;
        let mut rejected: Vec<(ComponentClass, String)> = Vec::new();
        let mut k: usize = 0;
        while k < groups.len()
            invariant
                k <= groups.len(),
                verdicts@.len() == groups.len(),
                group_views(groups@) == g,
                core.inv(),
                integrity(core.spec_state()),
                core.spec_autonomy() == old(core).spec_autonomy(),
                committed <= k,
                rec_len <= core.spec_log().len(),
                recorded ==> start_len < rec_len && core.spec_log()[start_len as int] == rec,
                verdicts_match(verdicts@, catalog, g, cands, groups.len() as int),
                components@ == old(core).spec_state().components,
                core.spec_state().components == s_old.components,
                s_old == old(core).spec_state(),
                components@.len() > 0,
                g == groups_of(components@),
                recorded == reply is Some,
                cands == reply_candidates(reply),
                (exists|j: int| 0 <= j < k && (#[trigger] verdicts@[j]) is Reject) ==> (0
                    < rejected@.len()),
                parts_from_catalog(old(core).spec_state().parts, core.spec_state().parts, catalog),
                ordered@.len() == core.spec_state().parts.len(),
                forall|q: int|
                    0 <= q < ordered@.len() ==> (#[trigger] ordered@[q]).id
                        == core.spec_state().parts[q].id && ordered@[q].mpn@
                        == core.spec_state().parts[q].mpn@,
                clean == sources_cleanly(*old(core), catalog, reply),
                fine == source_room(*old(core), catalog, reply),
                recorded ==> records_request(*old(core), *core, model_id@),
                start_len == old(core).spec_log().len(),
                clean ==> fine,
                group_total(g) == components@.len(),
                fine ==> refusal_views(rejected@) == refusals(catalog, g, cands, k as nat),
                clean ==> groups_shaped(components@, g),
                ol == s_old.bom_line_items,
                clean ==> committed == accepted_upto(catalog, g, cands, ol, k as nat).len(),
                clean ==> core.spec_state().bom_line_items.len() == ol.len() + accepted_upto(
                    catalog,
                    g,
                    cands,
                    ol,
                    k as nat,
                ).len(),
                clean ==> forall|j: int|
                    0 <= j < ol.len() ==> #[trigger] core.spec_state().bom_line_items[j] == ol[j],
                clean ==> forall|j: int|
                    ol.len() <= j < core.spec_state().bom_line_items.len() ==> line_sourced(
                        #[trigger] core.spec_state().bom_line_items[j],
                        g[accepted_upto(catalog, g, cands, ol, k as nat)[j - ol.len()]],
                        core.spec_state().parts,
                        catalog,
                        cands,
                    ),
                clean ==> forall|j: int|
                    ol.len() <= j < core.spec_state().bom_line_items.len() ==> line_traced(
                        #[trigger] core.spec_state().bom_line_items[j],
                        core.spec_state().links,
                    ),
                clean ==> forall|j: int|
                    0 <= j < core.spec_state().parts.len() ==> (#[trigger] core.spec_state().parts[j]).id.0
                        != 0,
                fine ==> core.spec_next_id() <= next0 + 3 * k + group_total(g.take(k as int)),
                fine ==> core.spec_log().len() <= log0 + 1 + 3 * k + group_total(g.take(k as int)),
                next0 == old(core).spec_next_id(),
                log0 == old(core).spec_log().len(),
            decreases groups.len() - k,
        {
            let class = groups[k].class;
            proof {
                assert(group_views(groups@)[k as int] == (groups@[k as int].class, groups@[k as int].components@));
                if fine {
                    lemma_total_step(g, k as int);
                    lemma_total_prefix(g, k + 1);
                    assert(groups_of(s_old.components) == g);
                }
                lemma_accepted_upto(catalog, g, cands, ol, k as nat);
                if let Some(pr) = proposal_from(cands, g[k as int].0, 0) {
                    lemma_match_from(catalog.spec_members(g[k as int].0), spec_trim(pr.mpn@), 0);
                }
            }
            match &verdicts[k] {
                Selection::Reject(mpn) => {
                    let ghost before = rejected@;
                    let copy = mpn.clone();
                    rejected.push((class, copy));
                    proof {
                        assert(refusal_views(rejected@) =~= refusal_views(before).push((class, copy@)));
                        assert(accepted_upto(catalog, g, cands, ol, (k + 1) as nat) == accepted_upto(
                            catalog,
                            g,
                            cands,
                            ol,
                            k as nat,
                        ));
                    }
                },
                Selection::Use(idx) => {
                    let idx = *idx;
                    let members = copy_vec(&groups[k].components);
                    if core.ids_left() <= 3 + members.len() as u128 {
                        return AgentOutcome::Failed("the entity id space is exhausted".to_owned());
                    }
                    let cp = catalog.class_parts(class).member(idx);
                    assert(*cp == chosen(catalog, g[k as int].0, cands));
                    let mut found: Option<EntityId> = None;
                    let mut q: usize = 0;
                    while q < ordered.len() && found.is_none()
                        invariant
                            q <= ordered.len(),
                            found matches Some(id) ==> exists|j: int|
                                0 <= j < ordered@.len() && (#[trigger] ordered@[j]).id == id
                                    && ordered@[j].mpn@ == cp.mpn@,
                            found is None ==> forall|j: int|
                                0 <= j < q ==> (#[trigger] ordered@[j]).mpn@ != cp.mpn@,
                        decreases ordered.len() - q,
                    {
                        if same_text(ordered[q].mpn.as_str(), cp.mpn.as_str()) {
                            found = Some(ordered[q].id);
                        }
                        q += 1;
                    }
                    let ghost s_pre = core.spec_state();
                    let ghost log_pre = core.spec_log().len();
                    let part_id = match found {
                        Some(id) => id,
                        None => {
                            let pid = core.fresh_id();
                            let part = Part {
                                id: pid,
                                mpn: cp.mpn.clone(),
                                manufacturer: cp.manufacturer.clone(),
                                lifecycle: cp.lifecycle,
                                datasheet: cp.datasheet.clone(),
                            };
                            let ghost s_before = core.spec_state();
                            let ghost pv = part;
                            let no_links: Vec<ProvenanceLink> = Vec::new();
                            assert(no_links@ =~= Seq::<ProvenanceLink>::empty());
                            proof {
                                if fine {
                                    assert(!spec_is_blank(chosen(catalog, g[k as int].0, cands).mpn@));
                                    assert(decide(
                                        s_before,
                                        core.spec_autonomy(),
                                        CapabilityRequest::CreatePart { part: pv, links: no_links },
                                    ) is Ok);
                                }
                            }
                            if !propose(core, CapabilityRequest::CreatePart { part, links: no_links }) {
                                rejected.push((class, cp.mpn.clone()));
                                k += 1;
                                continue;
                            }
                            proof {
                                lemma_fold_one(s_before, Event::PartCommitted { part: pv });
                                assert(from_record(pv, catalog.spec_members(class)[idx as int]));
                                assert(from_catalog(pv, catalog));
                                let np = core.spec_state().parts;
                                assert(np == s_before.parts.push(pv));
                                assert forall|i: int| 0 <= i < s_before.parts.len() implies #[trigger] np[i].mpn@
                                    != pv.mpn@ by {
                                    assert(ordered@[i].mpn@ != cp.mpn@);
                                }
                                let acc = accepted_upto(catalog, g, cands, ol, k as nat);
                                if clean {
                                    assert forall|j: int|
                                        ol.len() <= j < core.spec_state().bom_line_items.len() implies line_sourced(
                                        #[trigger] core.spec_state().bom_line_items[j],
                                        g[acc[j - ol.len()]],
                                        core.spec_state().parts,
                                        catalog,
                                        cands,
                                    ) by {
                                        lemma_line_sourced_push(
                                            s_before.bom_line_items[j],
                                            g[acc[j - ol.len()]],
                                            s_before.parts,
                                            pv,
                                            catalog,
                                            cands,
                                        );
                                    }
                                }
                            }
                            ordered.push(OrderedPart { mpn: cp.mpn.clone(), id: pid });
                            proof {
                                let last = ordered@.len() - 1;
                                assert(ordered@[last].id == pid && ordered@[last].mpn@ == cp.mpn@);
                            }
                            pid
                        },
                    };
                    let ghost s_part = core.spec_state();
                    let ghost log_part = core.spec_log();
                    assert(exists|j: int|
                        0 <= j < ordered@.len() && (#[trigger] ordered@[j]).id == part_id
                            && ordered@[j].mpn@ == cp.mpn@);
                    let item_id = core.fresh_id();
                    let quantity = members.len() as u32;
                    let mut links: Vec<ProvenanceLink> = Vec::new();
                    links.push(
                        ProvenanceLink {
                            id: core.fresh_id(),
                            from: item_id,
                            to: part_id,
                            relation: RelationType::TracesTo,
                        },
                    );
                    let ghost nid_mid = core.spec_next_id();
                    let mut m: usize = 0;
                    while m < members.len()
                        invariant
                            m <= members.len(),
                            core.inv(),
                            integrity(core.spec_state()),
                            core.spec_autonomy() == old(core).spec_autonomy(),
                            rec_len <= core.spec_log().len(),
                            recorded ==> start_len < rec_len && core.spec_log()[start_len as int] == rec,
                            core.spec_next_id() + (members.len() - m) < u128::MAX,
                            components@.len() > 0,
                            parts_from_catalog(old(core).spec_state().parts, core.spec_state().parts, catalog),
                            core.spec_state() == s_part,
                            core.spec_log() == log_part,
                            core.spec_next_id() == nid_mid + m,
                            links@.len() == 1 + m,
                            links@[0].from == item_id && links@[0].to == part_id
                                && links@[0].relation == RelationType::TracesTo,
                            forall|x: int|
                                0 <= x < m ==> (#[trigger] links@[1 + x]).from == item_id
                                    && links@[1 + x].to == members@[x] && links@[1
                                    + x].relation == RelationType::TracesTo,
                        decreases members.len() - m,
                    {
                        links.push(
                            ProvenanceLink {
                                id: core.fresh_id(),
                                from: item_id,
                                to: members[m],
                                relation: RelationType::TracesTo,
                            },
                        );
                        m += 1;
                    }
                    let item = BomLineItem { id: item_id, part: part_id, components: members, quantity };
                    let ghost s_before = core.spec_state();
                    let ghost iv = item;
                    let ghost lv = links@;
                    let ghost fresh = uncovered_group(ol, g[k as int].1);
                    proof {
                        if clean && !fresh {
                            let gk = g[k as int];
                            assert(members@ == gk.1);
                            let m0 = choose|m0: int| 0 <= m0 < gk.1.len() && covered(ol, #[trigger] gk.1[m0]);
                            let i0 = choose|i0: int|
                                0 <= i0 < ol.len() && (#[trigger] ol[i0]).components.contains(gk.1[m0]);
                            assert(s_before.bom_line_items[i0] == ol[i0]);
                            assert(covered(s_before.bom_line_items, gk.1[m0]));
                            if bom_problem_from(s_before, gk.1, 0) is None {
                                crate::laws::lemma_bom_problem_none(s_before, gk.1, 0);
                            }
                            assert(!(decide(
                                s_before,
                                core.spec_autonomy(),
                                CapabilityRequest::CreateBomLineItem { item: iv, links },
                            ) is Ok));
                        }
                        if clean && fresh {
                            let gk = g[k as int];
                            assert(members@ == gk.1);
                            let j = choose|j: int|
                                0 <= j < ordered@.len() && (#[trigger] ordered@[j]).id == part_id
                                    && ordered@[j].mpn@ == cp.mpn@;
                            assert(s_before.parts[j].id == part_id);
                            assert(crate::seam::part_ids(s_before)[j] == part_id);
                            assert(has_id(crate::seam::part_ids(s_before), part_id));
                            assert(iv.validity() is Ok);
                            assert forall|x: int| 0 <= x < gk.1.len() implies has_id(
                                comp_ids(s_before),
                                #[trigger] gk.1[x],
                            ) by {
                                assert(ids_of(components@).contains(gk.1[x]));
                                let w = choose|w: int|
                                    0 <= w < ids_of(components@).len() && ids_of(components@)[w]
                                        == gk.1[x];
                                assert(comp_ids(s_before)[w] == gk.1[x]);
                            }
                            assert forall|x: int| 0 <= x < gk.1.len() implies !covered(
                                s_before.bom_line_items,
                                #[trigger] gk.1[x],
                            ) by {
                                assert(gk.1.contains(gk.1[x]));
                                if covered(s_before.bom_line_items, gk.1[x]) {
                                    let i = choose|i: int|
                                        0 <= i < s_before.bom_line_items.len()
                                            && (#[trigger] s_before.bom_line_items[i]).components.contains(
                                            gk.1[x],
                                        );
                                    if i < ol.len() {
                                        assert(s_before.bom_line_items[i] == ol[i]);
                                        assert(!covered(ol, gk.1[x]));
                                    } else {
                                        let acc = accepted_upto(catalog, g, cands, ol, k as nat);
                                        assert(line_sourced(s_before.bom_line_items[i], g[acc[i - ol.len()]], s_before.parts, catalog, cands));
                                        assert(g[acc[i - ol.len()]].1.contains(gk.1[x]));
                                        assert(acc[i - ol.len()] < k);
                                    }
                                }
                            }
                            lemma_no_bom_problem(s_before, gk.1, 0);
                            assert(decide(
                                s_before,
                                core.spec_autonomy(),
                                CapabilityRequest::CreateBomLineItem { item: iv, links },
                            ) is Ok);
                        }
                    }
                    if propose(core, CapabilityRequest::CreateBomLineItem { item, links }) {
                        proof {
                            let e = Event::BomLineItemCommitted { item: iv };
                            lemma_fold_first(s_before, e, link_events(lv));
                            lemma_fold_links(apply_spec(s_before, e), lv);
                            if clean {
                                assert(fresh);
                                let t = core.spec_state();
                                assert(t.bom_line_items == s_before.bom_line_items.push(iv@));
                                assert(t.parts == s_before.parts);
                                let j = choose|j: int|
                                    0 <= j < ordered@.len() && (#[trigger] ordered@[j]).id == part_id
                                        && ordered@[j].mpn@ == cp.mpn@;
                                assert(t.parts[j].id == part_id);
                                let acc = accepted_upto(catalog, g, cands, ol, k as nat);
                                let acc1 = accepted_upto(catalog, g, cands, ol, (k + 1) as nat);
                                assert(acc1 == acc.push(k as int));
                                let n = (ol.len() + acc.len()) as int;
                                assert(line_sourced(t.bom_line_items[n], g[k as int], t.parts, catalog, cands));
                                assert forall|jj: int| 0 <= jj < ol.len() implies #[trigger] t.bom_line_items[jj] == ol[jj] by {
                                    assert(t.bom_line_items[jj] == s_before.bom_line_items[jj]);
                                }
                                assert forall|jj: int| ol.len() <= jj < t.bom_line_items.len() implies line_sourced(
                                    #[trigger] t.bom_line_items[jj],
                                    g[acc1[jj - ol.len()]],
                                    t.parts,
                                    catalog,
                                    cands,
                                ) by {
                                    if jj < n {
                                        assert(t.bom_line_items[jj] == s_before.bom_line_items[jj]);
                                        assert(acc1[jj - ol.len()] == acc[jj - ol.len()]);
                                    }
                                }
                                let n0 = s_before.links.len();
                                assert(t.links == s_before.links + lv);
                                assert(t.links[n0 as int] == lv[0]);
                                assert(traces_to(t.links, item_id, part_id));
                                assert forall|x: int| 0 <= x < iv@.components.len() implies traces_to(
                                    t.links,
                                    item_id,
                                    #[trigger] iv@.components[x],
                                ) by {
                                    assert(t.links[n0 + 1 + x] == lv[1 + x]);
                                }
                                assert(line_traced(iv@, t.links));
                                assert forall|jj: int| ol.len() <= jj < t.bom_line_items.len() implies line_traced(
                                    #[trigger] t.bom_line_items[jj],
                                    t.links,
                                ) by {
                                    if jj < n {
                                        assert(t.bom_line_items[jj] == s_before.bom_line_items[jj]);
                                        lemma_traced_grow(s_before.bom_line_items[jj], s_before.links, lv);
                                    }
                                }
                            }
                        }
                        committed += 1;
                    } else {
                        proof {
                            if clean {
                                assert(!fresh);
                                assert(accepted_upto(catalog, g, cands, ol, (k + 1) as nat) == accepted_upto(
                                    catalog,
                                    g,
                                    cands,
                                    ol,
                                    k as nat,
                                ));
                            }
                        }
                    }
                },
            }
            k += 1;
        }
        proof {
            let n = g.len();
            lemma_accepted_upto(catalog, g, cands, ol, n);
            if refuses_some(catalog, old(core).spec_state().components, reply) {
                let kk = choose|kk: int|
                    0 <= kk < g.len() && (#[trigger] choice(catalog, g[kk].0, cands)) is Err;
                assert(verdicts@[kk] is Reject);
                assert(rejected@.len() > 0);
            } else {
                assert(forall|q: int| 0 <= q < n ==> (#[trigger] choice(catalog, g[q].0, cands)) is Ok);
            }
            if clean {
                let t = core.spec_state();
                let acc = accepted_upto(catalog, g, cands, ol, n);
                let o = ol.len();
                assert forall|i: int, kk: int, x: EntityId|
                    o <= i < t.bom_line_items.len() && 0 <= kk < g.len() && choice(catalog, g[kk].0, cands)
                        is Err && #[trigger] g[kk].1.contains(x) implies !(#[trigger] t.bom_line_items[i]).components.contains(x) by {
                    assert(line_sourced(t.bom_line_items[i], g[acc[i - o]], t.parts, catalog, cands));
                    assert(choice(catalog, g[acc[i - o]].0, cands) is Ok);
                    assert(acc[i - o] != kk);
                }
                assert forall|i: int| 0 <= i < acc.len() implies line_sourced(
                    #[trigger] t.bom_line_items[o + i],
                    g[acc[i]],
                    t.parts,
                    catalog,
                    cands,
                ) by {
                    assert(line_sourced(t.bom_line_items[o + i], g[acc[(o + i) - o]], t.parts, catalog, cands));
                }
                assert forall|i: int| 0 <= i < acc.len() implies line_traced(#[trigger] t.bom_line_items[o + i], t.links) by {
                    assert(line_traced(t.bom_line_items[o + i], t.links));
                }
            }
        }
        if rejected.len() > 0 {
            return AgentOutcome::Failed(rejection_message(&rejected));
        }
        AgentOutcome::Success { committed }
    }
}

/// The schema version of the BOM projection the planning phase records.
pub const BOM_IR_SCHEMA_VERSION: u32 = 1;

/// Every BOM line orders a committed part.
pub open spec fn lines_order_known_parts(s: StateView) -> bool {
    forall|i: int|
        0 <= i < s.bom_line_items.len() ==> has_id(part_ids(s), (#[trigger] s.bom_line_items[i]).part)
}

/// Every BOM line covers committed components only.
pub open spec fn lines_cover_known_components(s: StateView) -> bool {
    forall|i: int, m: int|
        0 <= i < s.bom_line_items.len() && 0 <= m < s.bom_line_items[i].components.len() ==> has_id(
            comp_ids(s),
            #[trigger] s.bom_line_items[i].components[m],
        )
}

/// Every component is on some BOM line: nothing ships unsourced.
pub open spec fn all_components_covered(s: StateView) -> bool {
    forall|c: int|
        0 <= c < s.components.len() ==> covered(s.bom_line_items, (#[trigger] s.components[c]).id)
}

/// What projecting the design's bill of materials gives: the number of line items, or why it
/// cannot be projected (no intent to lower from, a line ordering an unknown part or covering
/// an unknown component, or a component no line covers).
pub open spec fn bom_projection(s: StateView) -> Result<nat, Seq<char>> {
    if s.intent is None {
        Err("no intent for lowering"@)
    } else if !lines_order_known_parts(s) {
        Err("a BOM line item orders an unknown part"@)
    } else if !lines_cover_known_components(s) {
        Err("a BOM line item covers an unknown component"@)
    } else if !all_components_covered(s) {
        Err("a component is on no BOM line item"@)
    } else {
        Ok(s.bom_line_items.len())
    }
}

/// What a projected bill of materials guarantees: the design has an intent, every line
/// orders a part of the design and covers components of the design, and every component of
/// the design is on some line; the projection counts the lines.
pub proof fn lemma_projection_sound(s: StateView)
    ensures
        bom_projection(s) matches Ok(n) ==> s.intent is Some && n == s.bom_line_items.len(),
        bom_projection(s) is Ok ==> forall|i: int|
            0 <= i < s.bom_line_items.len() ==> #[trigger] line_part_known(s, i),
        bom_projection(s) is Ok ==> forall|i: int, m: int|
            0 <= i < s.bom_line_items.len() && 0 <= m < s.bom_line_items[i].components.len()
                ==> #[trigger] line_member_known(s, i, m),
        bom_projection(s) is Ok ==> forall|c: int|
            0 <= c < s.components.len() ==> #[trigger] component_on_a_line(s, c),
{
    if bom_projection(s) is Ok {
        assert forall|i: int| 0 <= i < s.bom_line_items.len() implies #[trigger] line_part_known(s, i) by {
            assert(has_id(part_ids(s), s.bom_line_items[i].part));
            let j = choose|j: int| 0 <= j < part_ids(s).len() && part_ids(s)[j] == s.bom_line_items[i].part;
            assert(s.parts[j].id == part_ids(s)[j]);
        }
        assert forall|i: int, m: int|
            0 <= i < s.bom_line_items.len() && 0 <= m < s.bom_line_items[i].components.len()
                implies #[trigger] line_member_known(s, i, m) by {
            assert(has_id(comp_ids(s), s.bom_line_items[i].components[m]));
            let j = choose|j: int|
                0 <= j < comp_ids(s).len() && comp_ids(s)[j] == s.bom_line_items[i].components[m];
            assert(s.components[j].id == comp_ids(s)[j]);
        }
        assert forall|c: int| 0 <= c < s.components.len() implies #[trigger] component_on_a_line(s, c) by {
            assert(covered(s.bom_line_items, s.components[c].id));
        }
    }
}

/// Line `i` orders a part the design holds.
pub open spec fn line_part_known(s: StateView, i: int) -> bool {
    exists|j: int| 0 <= j < s.parts.len() && (#[trigger] s.parts[j]).id == s.bom_line_items[i].part
}

/// The `m`-th component line `i` covers is a component the design holds.
pub open spec fn line_member_known(s: StateView, i: int, m: int) -> bool {
    exists|j: int|
        0 <= j < s.components.len() && (#[trigger] s.components[j]).id == s.bom_line_items[i].components[m]
}

/// Component `c` is on some line.
pub open spec fn component_on_a_line(s: StateView, c: int) -> bool {
    exists|i: int|
        0 <= i < s.bom_line_items.len() && (#[trigger] s.bom_line_items[i]).components.contains(
            s.components[c].id,
        )
}

/// Project the design's bill of materials, re-asserting procurement integrity.
pub fn project_bom(st: &EngineeringState) -> (r: Result<usize, String>)
    ensures
        match bom_projection(st@) {
            Ok(n) => r matches Ok(k) && k == n,
            Err(e) => r matches Err(m) && m@ == e,
        },
{
    proof {
        lemma_state_keys(st);
    }
    if st.intent.is_none() {
        return Err("no intent for lowering".to_owned());
    }
    let ghost s = st@;
    let mut i: usize = 0;
    while i < st.bom_line_items.len()
        invariant
            i <= st.bom_line_items.len(),
            s == st@,
            s.intent is Some,
            keys(st.parts@) == part_ids(s),
            forall|j: int| 0 <= j < i ==> has_id(part_ids(s), (#[trigger] s.bom_line_items[j]).part),
        decreases st.bom_line_items.len() - i,
    {
        assert(s.bom_line_items[i as int] == st.bom_line_items@[i as int]@);
        if !contains_id(&st.parts, st.bom_line_items[i].part) {
            assert(!has_id(part_ids(s), s.bom_line_items[i as int].part));
            return Err("a BOM line item orders an unknown part".to_owned());
        }
        i += 1;
    }
    let mut i: usize = 0;
    while i < st.bom_line_items.len()
        invariant
            i <= st.bom_line_items.len(),
            s == st@,
            s.intent is Some,
            lines_order_known_parts(s),
            keys(st.components@) == comp_ids(s),
            forall|j: int, m: int|
                0 <= j < i && 0 <= m < s.bom_line_items[j].components.len() ==> has_id(
                    comp_ids(s),
                    #[trigger] s.bom_line_items[j].components[m],
                ),
        decreases st.bom_line_items.len() - i,
    {
        let cs = &st.bom_line_items[i].components;
        assert(s.bom_line_items[i as int].components == cs@);
        let mut m: usize = 0;
        while m < cs.len()
            invariant
                m <= cs.len(),
                i < st.bom_line_items.len(),
                s == st@,
                s.intent is Some,
                lines_order_known_parts(s),
                cs@ == s.bom_line_items[i as int].components,
                keys(st.components@) == comp_ids(s),
                forall|q: int| 0 <= q < m ==> has_id(comp_ids(s), #[trigger] cs@[q]),
            decreases cs.len() - m,
        {
            if !contains_id(&st.components, cs[m]) {
                assert(s.bom_line_items[i as int].components[m as int] == cs@[m as int]);
                return Err("a BOM line item covers an unknown component".to_owned());
            }
            m += 1;
        }
        assert forall|j: int, q: int|
            0 <= j < i + 1 && 0 <= q < s.bom_line_items[j].components.len() implies has_id(
                comp_ids(s),
                #[trigger] s.bom_line_items[j].components[q],
            ) by {
            if j == i {
                assert(s.bom_line_items[j].components[q] == cs@[q]);
            }
        }
        i += 1;
    }
    let mut c: usize = 0;
    while c < st.components.len()
        invariant
            c <= st.components.len(),
            s == st@,
            s.intent is Some,
            lines_order_known_parts(s),
            lines_cover_known_components(s),
            forall|j: int| 0 <= j < c ==> covered(s.bom_line_items, (#[trigger] s.components[j]).id),
        decreases st.components.len() - c,
    {
        if !is_covered(&st.bom_line_items, st.components[c].id) {
            assert(s.components[c as int] == st.components@[c as int]);
            return Err("a component is on no BOM line item".to_owned());
        }
        c += 1;
    }
    Ok(st.bom_line_items.len())
}

/// Sourcing with no class refused leaves nothing unsourced: every line orders a committed
/// part and covers committed components, and every component is on a line.
pub proof fn lemma_sourced_covers(s: StateView, t: StateView, catalog: &PartCatalog, reply: Option<ReasoningResponse>)
    requires
        s.bom_line_items.len() == 0,
        ids_of(s.components).no_duplicates(),
        !refuses_some(catalog, s.components, reply),
        sourced(s, t, catalog, reply),
    ensures
        lines_order_known_parts(t),
        lines_cover_known_components(t),
        all_components_covered(t),
{
    let g = groups_of(s.components);
    let cands = reply_candidates(reply);
    let n = g.len();
    lemma_accepted_upto(catalog, g, cands, s.bom_line_items, n);
    assert(forall|q: int| 0 <= q < n ==> (#[trigger] choice(catalog, g[q].0, cands)) is Ok);
    let acc = accepted_upto(catalog, g, cands, s.bom_line_items, n);
    assert forall|i: int| 0 <= i < acc.len() implies line_sourced(
        #[trigger] t.bom_line_items[i],
        g[acc[i]],
        t.parts,
        catalog,
        cands,
    ) by {
        assert(line_sourced(t.bom_line_items[s.bom_line_items.len() + i], g[acc[i]], t.parts, catalog, cands));
    }
    assert(acc == Seq::new(n, |i: int| i));
    lemma_groups_shaped(s.components);
    lemma_groups_cover(s.components);
    assert forall|i: int| 0 <= i < t.bom_line_items.len() implies has_id(
        part_ids(t),
        (#[trigger] t.bom_line_items[i]).part,
    ) by {
        assert(line_sourced(t.bom_line_items[i], g[acc[i]], t.parts, catalog, cands));
        let j = choose|j: int|
            0 <= j < t.parts.len() && (#[trigger] t.parts[j]).id == t.bom_line_items[i].part
                && t.parts[j].mpn@ == chosen(catalog, g[acc[i]].0, cands).mpn@;
        assert(part_ids(t)[j] == t.bom_line_items[i].part);
    }
    assert forall|i: int, m: int|
        0 <= i < t.bom_line_items.len() && 0 <= m < t.bom_line_items[i].components.len() implies has_id(
        comp_ids(t),
        #[trigger] t.bom_line_items[i].components[m],
    ) by {
        assert(line_sourced(t.bom_line_items[i], g[acc[i]], t.parts, catalog, cands));
        assert(acc[i] == i);
        let x = t.bom_line_items[i].components[m];
        assert(g[i].1[m] == x);
        assert(ids_of(s.components).contains(x));
        let w = choose|w: int| 0 <= w < ids_of(s.components).len() && ids_of(s.components)[w] == x;
        assert(comp_ids(t)[w] == x);
    }
    assert forall|c: int| 0 <= c < t.components.len() implies covered(
        t.bom_line_items,
        (#[trigger] t.components[c]).id,
    ) by {
        assert(t.components[c] == s.components[c]);
        let k = choose|k: int| 0 <= k < g.len() && #[trigger] g[k].1.contains(s.components[c].id);
        assert(acc[k] == k);
        assert(line_sourced(t.bom_line_items[k], g[acc[k]], t.parts, catalog, cands));
        assert(t.bom_line_items[k].components.contains(s.components[c].id));
    }
}

/// The planning milestone is the last thing the log records: the BOM projection with as many
/// line items as the design has.
pub open spec fn milestone_last(c: RuntimeCore) -> bool {
    &&& c.spec_log().len() > 0
    &&& c.spec_log().last().event == (Event::BomIrProduced {
        schema_version: BOM_IR_SCHEMA_VERSION,
        line_item_count: c.spec_state().bom_line_items.len() as usize,
    })
}

/// One `Planning` step from `before` to `after` with outcome `r`: the design is sourced when no
/// BOM line exists yet (as [`BomPlanningMachine::source`] states), a sourcing failure fails
/// the phase, and otherwise the bill of materials is projected and the milestone recorded.
pub open spec fn planning_step(
    before: RuntimeCore,
    after: RuntimeCore,
    catalog: &PartCatalog,
    model_id: Seq<char>,
    reply: Option<ReasoningResponse>,
    r: Result<StepResult, MachineError>,
) -> bool {
    let s = before.spec_state();
    let t = after.spec_state();
    &&& after.spec_autonomy() == before.spec_autonomy()
    &&& !(r matches Ok(StepResult::Continue(_)))
    &&& s.bom_line_items.len() > 0 ==> t == s && match bom_projection(s) {
        Ok(n) => if before.spec_log().len() + 2 <= u64::MAX {
            r matches Ok(StepResult::Done) && crate::state::log_events(after.spec_log())
                == crate::state::log_events(before.spec_log()).push(
                Event::BomIrProduced { schema_version: BOM_IR_SCHEMA_VERSION, line_item_count: n as usize },
            )
        } else {
            (r matches Err(MachineError::Internal(m)) && m@ == "the event log is full"@)
                && after.spec_log() == before.spec_log()
        },
        Err(e) => (r matches Err(MachineError::Internal(m)) && m@ == e) && after.spec_log()
            == before.spec_log(),
    }
    &&& s.bom_line_items.len() == 0 && s.components.len() == 0 ==> t == s
    &&& s.bom_line_items.len() == 0 && refuses_some(catalog, s.components, reply) ==> (r matches Ok(
        StepResult::Failed(_),
    ))
    &&& s.bom_line_items.len() == 0 && source_room(before, catalog, reply) && refuses_some(
        catalog,
        s.components,
        reply,
    ) ==> (r matches Ok(StepResult::Failed(m)) && m@ == rejection_text(
        refusals(catalog, groups_of(s.components), reply_candidates(reply), groups_of(s.components).len()),
    ))
    &&& s.bom_line_items.len() == 0 && s.components.len() > 0 && reply is Some && before.spec_log().len()
        + 2 <= u64::MAX ==> records_request(before, after, model_id)
    &&& s.bom_line_items.len() == 0 && sources_cleanly(before, catalog, reply) ==> sourced(s, t, catalog, reply)
    &&& s.bom_line_items.len() == 0 && sources_cleanly(before, catalog, reply) && !refuses_some(catalog, s.components, reply) ==> !(
    r matches Ok(StepResult::Failed(_))) && lines_order_known_parts(t) && lines_cover_known_components(t)
        && all_components_covered(t)
    &&& parts_from_catalog(s.parts, t.parts, catalog)
    &&& r matches Ok(StepResult::Done) ==> bom_projection(t) == Ok::<nat, Seq<char>>(
        t.bom_line_items.len(),
    ) && milestone_last(after)
    &&& r matches Ok(StepResult::Done) ==> forall|c: int|
        0 <= c < t.components.len() ==> #[trigger] component_on_a_line(t, c)
    &&& r matches Ok(StepResult::Done) ==> forall|i: int|
        0 <= i < t.bom_line_items.len() ==> #[trigger] line_part_known(t, i)
    &&& bom_projection(t) is Err ==> !(r matches Ok(StepResult::Done))
    &&& r matches Err(MachineError::Internal(m)) ==> (bom_projection(t) matches Err(e) && m@ == e)
        || (bom_projection(t) is Ok && m@ == "the event log is full"@ && after.spec_log().len() + 2
        > u64::MAX)
}

/// The BOM planning phase: from `Idle` it goes to `Planning`, where it sources the realized
/// schematic once through its part-selection agent.
pub struct BomPlanningMachine {
    agent: PartSelectionAgent,
}

impl BomPlanningMachine {
    pub fn new() -> (r: BomPlanningMachine) {
        BomPlanningMachine { agent: PartSelectionAgent::new() }
    }

    pub fn name(&self) -> (r: &'static str)
        ensures
            r@ == "BomPlanning"@,
    {
        "BomPlanning"
    }

    pub fn initial(&self) -> (r: String)
        ensures
            r@ == "Idle"@,
    {
        "Idle".to_owned()
    }

    /// What the phase tells its agent: its name, the goal and a budget of one judgement.
    pub fn activation(&self) -> (r: AgentActivation)
        ensures
            r.phase@ == "BomPlanning"@,
            r.goal@ == "select an approved catalog part for each component class"@,
            r.budget.max_reasoning_calls == 1,
    {
        AgentActivation {
            phase: "BomPlanning".to_owned(),
            goal: "select an approved catalog part for each component class".to_owned(),
            budget: Budget { max_reasoning_calls: 1 },
        }
    }

    /// The sourcing half of the `Planning` step. A design that already has BOM lines (a loop
    /// back into the phase) is sourced already: nothing is asked or committed. Otherwise the
    /// agent sources it with `reply`; a refusal or a hand-off to a human fails with the
    /// agent's reason.
    pub fn source(
        &mut self,
        core: &mut RuntimeCore,
        catalog: &PartCatalog,
        model_id: &str,
        reply: Option<ReasoningResponse>,
    ) -> (r: Result<(), String>)
        requires
            old(core).inv(),
            integrity(old(core).spec_state()),
        ensures
            final(core).inv(),
            integrity(final(core).spec_state()),
            final(core).spec_autonomy() == old(core).spec_autonomy(),
            old(core).spec_state().bom_line_items.len() > 0 ==> r is Ok && final(core).spec_state()
                == old(core).spec_state() && final(core).spec_log() == old(core).spec_log(),
            old(core).spec_state().bom_line_items.len() == 0 && old(core).spec_state().components.len()
                == 0 ==> r is Ok && final(core).spec_state() == old(core).spec_state()
                && final(core).spec_log() == old(core).spec_log(),
            old(core).spec_state().bom_line_items.len() == 0 && refuses_some(
                catalog,
                old(core).spec_state().components,
                reply,
            ) ==> r is Err,
            old(core).spec_state().bom_line_items.len() == 0 && old(core).spec_state().components.len()
                > 0 && reply is Some && old(core).spec_log().len() + 2 <= u64::MAX ==> records_request(
                *old(core),
                *final(core),
                model_id@,
            ),
            old(core).spec_state().bom_line_items.len() == 0 && sources_cleanly(*old(core), catalog, reply) ==> sourced(
                old(core).spec_state(),
                final(core).spec_state(),
                catalog,
                reply,
            ),
            old(core).spec_state().bom_line_items.len() == 0 && sources_cleanly(*old(core), catalog, reply) && !refuses_some(
                catalog,
                old(core).spec_state().components,
                reply,
            ) ==> r is Ok,
            old(core).spec_state().bom_line_items.len() == 0 && source_room(*old(core), catalog, reply)
                && refuses_some(catalog, old(core).spec_state().components, reply) ==> (r matches Err(
                m,
            ) && m@ == rejection_text(
                refusals(
                    catalog,
                    groups_of(old(core).spec_state().components),
                    reply_candidates(reply),
                    groups_of(old(core).spec_state().components).len(),
                ),
            )),
            parts_from_catalog(old(core).spec_state().parts, final(core).spec_state().parts, catalog),
    {
        if core.current_state().bom_line_items.len() > 0 {
            return Ok(());
        }
        match self.agent.activate(core, catalog, model_id, reply) {
            AgentOutcome::Success { .. } => Ok(()),
            AgentOutcome::NeedsHuman(m) => {
                let mut s = "needs human: ".to_owned();
                s.append(m.as_str());
                s.append(" (HITL deferred)");
                Err(s)
            },
            AgentOutcome::Failed(m) => Err(m),
        }
    }

    /// The `Planning` step: source the design when no BOM line exists yet, then project the
    /// bill of materials and record the milestone. A loop back into the phase (lines already
    /// there) asks nothing and commits nothing: it only re-projects and re-records the
    /// milestone.
    pub fn plan(
        &mut self,
        core: &mut RuntimeCore,
        catalog: &PartCatalog,
        model_id: &str,
        reply: Option<ReasoningResponse>,
    ) -> (r: Result<StepResult, MachineError>)
        requires
            old(core).inv(),
            integrity(old(core).spec_state()),
        ensures
            final(core).inv(),
            integrity(final(core).spec_state()),
            planning_step(*old(core), *final(core), catalog, model_id@, reply, r),
    {
        let ghost before = *core;
        match self.source(core, catalog, model_id, reply) {
            Ok(()) => {},
            Err(m) => {
                return Ok(StepResult::Failed(m));
            },
        }
        proof {
            if before.spec_state().bom_line_items.len() == 0 && sources_cleanly(before, catalog, reply) && !refuses_some(
                catalog,
                before.spec_state().components,
                reply,
            ) {
                lemma_sourced_covers(before.spec_state(), core.spec_state(), catalog, reply);
            }
        }
        proof {
            lemma_projection_sound(core.spec_state());
        }
        let n = match project_bom(core.current_state()) {
            Ok(n) => n,
            Err(e) => {
                return Err(MachineError::Internal(e));
            },
        };
        if core.log_room() < 2 {
            return Err(MachineError::Internal("the event log is full".to_owned()));
        }
        let mut evs: Vec<Event> = Vec::new();
        evs.push(Event::BomIrProduced { schema_version: BOM_IR_SCHEMA_VERSION, line_item_count: n });
        let ghost e0 = evs@[0];
        let ghost mid = *core;
        core.emit(evs);
        proof {
            reveal_with_fuel(fold_events, 2);
            assert(seq![e0].drop_last() =~= Seq::<Event>::empty());
            assert(evs@ =~= seq![e0]);
            let l = core.spec_log();
            assert(crate::state::log_events(l).len() == l.len());
            assert(crate::state::log_events(mid.spec_log()).len() == mid.spec_log().len());
            assert(crate::state::log_events(l)[l.len() - 1] == e0);
            assert(crate::state::log_events(l) =~= crate::state::log_events(mid.spec_log()).push(e0));
            if records_request(before, mid, model_id@) {
                let k = before.spec_log().len() as int;
                assert(crate::state::log_events(l)[k] == crate::state::log_events(mid.spec_log())[k]);
                assert(l[k].event == mid.spec_log()[k].event);
            }
        }
        Ok(StepResult::Done)
    }

    /// One step of the phase's state machine: `Idle` goes on to `Planning`, `Planning` is
    /// [`BomPlanningMachine::plan`], and any other state is a fault of the machine.
    pub fn step(
        &mut self,
        state: &str,
        core: &mut RuntimeCore,
        catalog: &PartCatalog,
        model_id: &str,
        reply: Option<ReasoningResponse>,
    ) -> (r: Result<StepResult, MachineError>)
        requires
            old(core).inv(),
            integrity(old(core).spec_state()),
        ensures
            final(core).inv(),
            integrity(final(core).spec_state()),
            state@ == "Idle"@ ==> (r matches Ok(StepResult::Continue(n)) && n@ == "Planning"@)
                && final(core).spec_state() == old(core).spec_state() && final(core).spec_log()
                == old(core).spec_log() && final(core).spec_next_id() == old(core).spec_next_id(),
            state@ == "Planning"@ ==> planning_step(*old(core), *final(core), catalog, model_id@, reply, r),
            state@ != "Idle"@ && state@ != "Planning"@ ==> (r matches Err(MachineError::Internal(m))
                && m@ == "unknown state "@ + state@) && final(core).spec_state() == old(core).spec_state()
                && final(core).spec_log() == old(core).spec_log() && final(core).spec_next_id() == old(
                core,
            ).spec_next_id(),
    {
        proof {
            reveal_strlit("Idle");
            reveal_strlit("Planning");
        }
        if same_text(state, "Idle") {
            Ok(StepResult::Continue("Planning".to_owned()))
        } else if same_text(state, "Planning") {
            self.plan(core, catalog, model_id, reply)
        } else {
            let mut m = "unknown state ".to_owned();
            m.append(state);
            Err(MachineError::Internal(m))
        }
    }
}

} // verus!
