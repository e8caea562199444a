//! Applying a proposed categorization: the unassigned items of a store are
//! put into its sections as a classifier proposes, all of them or none.

use crate::db::{has_key, lemma_kept_rows, placed, position, Db, Keyed};
use crate::handler::Problem;
use crate::store::item::{active_items, in_scope, max_ord, max_ord_of, scope_items, Item};
use crate::store::section::{of_store, sections_of, Section};
use vstd::prelude::*;

verus! {

/// What the classifier is told of an item or a section.
#[derive(Debug)]
pub struct PromptItem {
    pub id: i64,
    pub name: String,
}

impl From<Item> for PromptItem {
    fn from(value: Item) -> (prompt: PromptItem) {
        PromptItem { id: value.id, name: value.name }
    }
}

impl vstd::std_specs::convert::FromSpecImpl<Item> for PromptItem {
    open spec fn obeys_from_spec() -> bool {
        true
    }

    open spec fn from_spec(value: Item) -> PromptItem {
        PromptItem { id: value.id, name: value.name }
    }
}

impl From<Section> for PromptItem {
    fn from(value: Section) -> (prompt: PromptItem) {
        PromptItem { id: value.id, name: value.name }
    }
}

impl vstd::std_specs::convert::FromSpecImpl<Section> for PromptItem {
    open spec fn obeys_from_spec() -> bool {
        true
    }

    open spec fn from_spec(value: Section) -> PromptItem {
        PromptItem { id: value.id, name: value.name }
    }
}

/// The candidates that the classifier is given.
#[derive(Debug)]
pub struct Prompt {
    pub items: Vec<PromptItem>,
    pub sections: Vec<PromptItem>,
}

/// What the classifier is told of the item.
pub open spec fn item_prompt() -> spec_fn(Item) -> PromptItem {
    |item: Item| PromptItem { id: item.id, name: item.name }
}

/// What the classifier is told of the section.
pub open spec fn section_prompt() -> spec_fn(Section) -> PromptItem {
    |section: Section| PromptItem { id: section.id, name: section.name }
}

impl Prompt {
    /// The candidates as the classifier sees them: id and name of each, in
    /// the order given.
    pub fn new(items: Vec<Item>, sections: Vec<Section>) -> (prompt: Prompt)
        ensures
            prompt.items@ == items@.map_values(item_prompt()),
            prompt.sections@ == sections@.map_values(section_prompt()),
    {
        let ghost all_items = items@;
        let ghost all_sections = sections@;
        let mut told_items: Vec<PromptItem> = Vec::new();
        for item in iter: items
            invariant
                iter.seq() == all_items,
                told_items@ == all_items.take(iter.index() as int).map_values(item_prompt()),
        {
            proof {
                assert(all_items.take(iter.index() + 1) =~= all_items.take(iter.index() as int).push(
                    item,
                ));
            }
            told_items.push(item.into());
            proof {
                assert(told_items@ =~= all_items.take(iter.index() + 1).map_values(item_prompt()));
            }
        }
        let mut told_sections: Vec<PromptItem> = Vec::new();
        for section in iter: sections
            invariant
                iter.seq() == all_sections,
                told_sections@ == all_sections.take(iter.index() as int).map_values(
                    section_prompt(),
                ),
        {
            proof {
                assert(all_sections.take(iter.index() + 1) =~= all_sections.take(
                    iter.index() as int,
                ).push(section));
            }
            told_sections.push(section.into());
            proof {
                assert(told_sections@ =~= all_sections.take(iter.index() + 1).map_values(
                    section_prompt(),
                ));
            }
        }
        proof {
            assert(all_items.take(all_items.len() as int) =~= all_items);
            assert(all_sections.take(all_sections.len() as int) =~= all_sections);
        }
        Prompt { items: told_items, sections: told_sections }
    }
}

/// A proposal: the item belongs in the section.
#[derive(Debug, Clone, Copy, PartialEq, Eq, Structural)]
pub struct Categorization {
    pub section_id: i64,
    pub item_id: i64,
}

/// What the classifier answers.
#[derive(Debug)]
pub struct CategorizationResponse {
    pub categorized: Vec<Categorization>,
}

/// The predicate "names one of the items and one of the sections".
pub open spec fn names_candidates(items: Seq<Item>, sections: Seq<Section>) -> spec_fn(
    Categorization,
) -> bool {
    |pair: Categorization| has_key(items, pair.item_id) && has_key(sections, pair.section_id)
}

/// The proposals that name a candidate item and a candidate section, in the
/// order in which they came. The others are dropped.
pub fn valid_pairs(categorized: &Vec<Categorization>, items: &Vec<Item>, sections: &Vec<Section>) -> (valid:
    Vec<Categorization>)
    ensures
        valid@ == categorized@.filter(names_candidates(items@, sections@)),
{
    let mut valid: Vec<Categorization> = Vec::new();
    let mut at: usize = 0;
    proof {
        assert(categorized@.take(0) =~= Seq::<Categorization>::empty());
        reveal(Seq::filter);
    }
    while at < categorized.len()
        invariant
            at <= categorized.len(),
            valid@ == categorized@.take(at as int).filter(names_candidates(items@, sections@)),
        decreases categorized.len() - at,
    {
        proof {
            assert(categorized@.take(at + 1) =~= categorized@.take(at as int).push(
                categorized@[at as int],
            ));
            categorized@.take(at as int).lemma_filter_push(
                categorized@[at as int],
                names_candidates(items@, sections@),
            );
        }
        let pair = categorized[at];
        if position(items, pair.item_id).is_some() && position(sections, pair.section_id).is_some() {
            valid.push(pair);
        }
        at += 1;
    }
    proof {
        assert(categorized@.take(at as int) =~= categorized@);
    }
    valid
}

/// The items proposed for one section, in the order in which they were proposed.
#[derive(Debug)]
pub struct SectionGroup {
    pub section_id: i64,
    pub item_ids: Vec<i64>,
}

/// What a `SectionGroup` holds.
pub struct Grouping {
    pub section_id: i64,
    pub item_ids: Seq<i64>,
}

impl View for SectionGroup {
    type V = Grouping;

    open spec fn view(&self) -> Grouping {
        Grouping { section_id: self.section_id, item_ids: self.item_ids@ }
    }
}

/// The sections that the proposals name, each once, in the order in which
/// they are first named.
pub open spec fn sections_named(pairs: Seq<Categorization>) -> Seq<i64>
    decreases pairs.len(),
{
    if pairs.len() == 0 {
        Seq::empty()
    } else {
        let before = sections_named(pairs.drop_last());
        if before.contains(pairs.last().section_id) {
            before
        } else {
            before.push(pairs.last().section_id)
        }
    }
}

/// The predicate "proposes the section".
pub open spec fn proposes(section_id: i64) -> spec_fn(Categorization) -> bool {
    |pair: Categorization| pair.section_id == section_id
}

/// The item of a proposal.
pub open spec fn proposed_item() -> spec_fn(Categorization) -> i64 {
    |pair: Categorization| pair.item_id
}

/// The items proposed for the section, in the order in which they were proposed.
pub open spec fn items_for(pairs: Seq<Categorization>, section_id: i64) -> Seq<i64> {
    pairs.filter(proposes(section_id)).map_values(proposed_item())
}

/// The group of a section.
pub open spec fn group_of(pairs: Seq<Categorization>) -> spec_fn(i64) -> Grouping {
    |section_id: i64| Grouping { section_id, item_ids: items_for(pairs, section_id) }
}

/// The proposals by section: one group for each section named, in the order in
/// which the sections are first named, each with the items proposed for it.
pub open spec fn grouped(pairs: Seq<Categorization>) -> Seq<Grouping> {
    sections_named(pairs).map_values(group_of(pairs))
}

/// What one more proposal adds to the items of a section.
pub proof fn lemma_items_for_push(pairs: Seq<Categorization>, pair: Categorization, section_id: i64)
    ensures
        items_for(pairs.push(pair), section_id) == if pair.section_id == section_id {
            items_for(pairs, section_id).push(pair.item_id)
        } else {
            items_for(pairs, section_id)
        },
{
    pairs.lemma_filter_push(pair, proposes(section_id));
    if pair.section_id == section_id {
        assert(pairs.filter(proposes(section_id)).push(pair).map_values(proposed_item())
            =~= pairs.filter(proposes(section_id)).map_values(proposed_item()).push(pair.item_id));
    }
}

/// The sections named are named once each, a section is among them exactly
/// when a proposal names it, and a section that is not has no items.
pub proof fn lemma_sections_named(pairs: Seq<Categorization>)
    ensures
        sections_named(pairs).no_duplicates(),
        forall|section_id: i64|
            #![trigger sections_named(pairs).contains(section_id)]
            sections_named(pairs).contains(section_id) <==> exists|i: int|
                0 <= i < pairs.len() && (#[trigger] pairs[i]).section_id == section_id,
        forall|section_id: i64|
            #![trigger items_for(pairs, section_id)]
            !sections_named(pairs).contains(section_id) ==> items_for(pairs, section_id).len() == 0,
    decreases pairs.len(),
{
    reveal(Seq::filter);
    if pairs.len() > 0 {
        let front = pairs.drop_last();
        let last = pairs.last();
        lemma_sections_named(front);
        let before = sections_named(front);
        let named = sections_named(pairs);
        assert(pairs =~= front.push(last));
        assert forall|section_id: i64|
            #![trigger named.contains(section_id)]
            named.contains(section_id) <==> exists|i: int|
                0 <= i < pairs.len() && (#[trigger] pairs[i]).section_id == section_id by {
            if named.contains(section_id) {
                let k = choose|k: int| 0 <= k < named.len() && named[k] == section_id;
                if k < before.len() {
                    assert(before[k] == section_id);
                    assert(before.contains(section_id));
                    let i = choose|i: int|
                        0 <= i < front.len() && (#[trigger] front[i]).section_id == section_id;
                    assert(pairs[i].section_id == section_id);
                } else {
                    assert(pairs[pairs.len() - 1].section_id == section_id);
                }
            }
            if exists|i: int| 0 <= i < pairs.len() && (#[trigger] pairs[i]).section_id == section_id {
                let i = choose|i: int|
                    0 <= i < pairs.len() && (#[trigger] pairs[i]).section_id == section_id;
                if i < front.len() {
                    assert(front[i].section_id == section_id);
                    assert(before.contains(section_id));
                    let k = choose|k: int| 0 <= k < before.len() && before[k] == section_id;
                    assert(named[k] == section_id);
                } else if before.contains(section_id) {
                } else {
                    assert(named[named.len() - 1] == section_id);
                }
            }
        }
        assert forall|section_id: i64|
            #![trigger items_for(pairs, section_id)]
            !named.contains(section_id) implies items_for(pairs, section_id).len() == 0 by {
            lemma_items_for_push(front, last, section_id);
            if last.section_id == section_id {
                assert(pairs[pairs.len() - 1].section_id == section_id);
            }
            if before.contains(section_id) {
                let k = choose|k: int| 0 <= k < before.len() && before[k] == section_id;
                assert(named[k] == section_id);
            }
        }
    } else {
        assert forall|section_id: i64|
            #![trigger items_for(pairs, section_id)]
            items_for(pairs, section_id).len() == 0 by {
            assert(pairs.filter(proposes(section_id)) =~= Seq::<Categorization>::empty());
        }
    }
}

/// Groups the proposals by section: the sections in the order in which they
/// are first named, the items of each in the order in which they were proposed.
pub fn group_pairs(pairs: &Vec<Categorization>) -> (groups: Vec<SectionGroup>)
    ensures
        groups@.map_values(|group: SectionGroup| group@) == grouped(pairs@),
{
    let mut groups: Vec<SectionGroup> = Vec::new();
    let mut at: usize = 0;
    proof {
        assert(pairs@.take(0) =~= Seq::<Categorization>::empty());
    }
    while at < pairs.len()
        invariant
            at <= pairs.len(),
            groups@.len() == sections_named(pairs@.take(at as int)).len(),
            forall|g: int|
                0 <= g < groups@.len() ==> (#[trigger] groups@[g]).section_id == sections_named(
                    pairs@.take(at as int),
                )[g] && groups@[g].item_ids@ == items_for(
                    pairs@.take(at as int),
                    groups@[g].section_id,
                ),
        decreases pairs.len() - at,
    {
        let pair = pairs[at];
        let ghost seen = pairs@.take(at as int);
        let ghost named = sections_named(seen);
        proof {
            assert(pairs@.take(at + 1) =~= seen.push(pair));
            assert(seen.push(pair).drop_last() =~= seen);
            lemma_sections_named(seen);
            assert forall|section_id: i64|
                items_for(seen.push(pair), section_id) == if pair.section_id == section_id {
                    items_for(seen, section_id).push(pair.item_id)
                } else {
                    items_for(seen, section_id)
                } by {
                lemma_items_for_push(seen, pair, section_id);
            }
        }
        let mut g: usize = 0;
        while g < groups.len() && groups[g].section_id != pair.section_id
            invariant
                g <= groups@.len(),
                forall|k: int| 0 <= k < g ==> (#[trigger] groups@[k]).section_id != pair.section_id,
            decreases groups@.len() - g,
        {
            g += 1;
        }
        if g < groups.len() {
            proof {
                assert(named[g as int] == pair.section_id);
                assert(named.contains(pair.section_id));
            }
            let ghost before = groups@;
            groups[g].item_ids.push(pair.item_id);
            proof {
                assert forall|k: int| 0 <= k < groups@.len() implies (#[trigger] groups@[k]).section_id
                    == named[k] && groups@[k].item_ids@ == items_for(
                    seen.push(pair),
                    groups@[k].section_id,
                ) by {
                    if k != g {
                        assert(groups@[k] == before[k]);
                        assert(named[k] != named[g as int]);
                    }
                }
            }
        } else {
            proof {
                if named.contains(pair.section_id) {
                    let k = choose|k: int| 0 <= k < named.len() && named[k] == pair.section_id;
                    assert(groups@[k].section_id == pair.section_id);
                }
                assert(items_for(seen, pair.section_id).len() == 0);
                assert(items_for(seen, pair.section_id) =~= Seq::<i64>::empty());
            }
            let mut item_ids: Vec<i64> = Vec::new();
            item_ids.push(pair.item_id);
            groups.push(SectionGroup { section_id: pair.section_id, item_ids });
            proof {
                assert(Seq::<i64>::empty().push(pair.item_id) =~= seq![pair.item_id]);
            }
        }
        at += 1;
    }
    proof {
        assert(pairs@.take(at as int) =~= pairs@);
        assert(groups@.map_values(|group: SectionGroup| group@) =~= grouped(pairs@));
    }
    groups
}

/// A new place for an item: the section, and the order value there.
#[derive(Debug, Clone, Copy, PartialEq, Eq, Structural)]
pub struct Assignment {
    pub item_id: i64,
    pub section_id: i64,
    pub ord: i64,
}

/// The assignments of a group whose section has reached the order value
/// `start`: the items of the group follow, numbered from `start + 1`.
pub open spec fn group_plan(group: Grouping, start: int) -> Seq<Assignment> {
    Seq::new(
        group.item_ids.len(),
        |j: int|
            Assignment {
                item_id: group.item_ids[j],
                section_id: group.section_id,
                ord: (start + 1 + j) as i64,
            },
    )
}

/// Numbers the items of a group after the order value that its section has
/// reached. There is no numbering where an order value would leave its range.
pub fn number_group(group: &SectionGroup, start: i64) -> (numbered: Option<Vec<Assignment>>)
    ensures
        numbered is None <==> start + group.item_ids@.len() > i64::MAX,
        numbered matches Some(plan) ==> plan@ == group_plan(group@, start as int),
{
    let mut plan: Vec<Assignment> = Vec::new();
    let mut ord = start;
    let mut at: usize = 0;
    while at < group.item_ids.len()
        invariant
            at <= group.item_ids@.len(),
            ord == start + at,
            plan@.len() == at,
            forall|j: int| 0 <= j < at ==> #[trigger] plan@[j] == group_plan(group@, start as int)[j],
        decreases group.item_ids@.len() - at,
    {
        ord = match ord.checked_add(1) {
            Some(next) => next,
            None => {
                return None;
            },
        };
        plan.push(Assignment { item_id: group.item_ids[at], section_id: group.section_id, ord });
        at += 1;
    }
    proof {
        assert(plan@ =~= group_plan(group@, start as int));
    }
    Some(plan)
}

/// The assignments of all groups, group after group. Each section is numbered
/// on from the order value that it has reached among the rows of the store.
pub open spec fn organize_plan(items: Seq<Item>, store_id: i64, groups: Seq<Grouping>) -> Seq<
    Assignment,
>
    decreases groups.len(),
{
    if groups.len() == 0 {
        Seq::empty()
    } else {
        organize_plan(items, store_id, groups.drop_last()) + group_plan(
            groups.last(),
            max_ord_of(items, Some(store_id), Some(groups.last().section_id)),
        )
    }
}

/// No group takes the order values of its section out of their range.
pub open spec fn plan_fits(items: Seq<Item>, store_id: i64, groups: Seq<Grouping>) -> bool {
    forall|g: int|
        0 <= g < groups.len() ==> max_ord_of(
            items,
            Some(store_id),
            Some((#[trigger] groups[g]).section_id),
        ) + groups[g].item_ids.len() <= i64::MAX
}

/// The assignments of all groups, where they fit.
pub fn plan_groups(items: &Vec<Item>, store_id: i64, groups: &Vec<SectionGroup>) -> (planned: Option<
    Vec<Assignment>,
>)
    ensures
        planned is None <==> !plan_fits(
            items@,
            store_id,
            groups@.map_values(|group: SectionGroup| group@),
        ),
        planned matches Some(plan) ==> plan@ == organize_plan(
            items@,
            store_id,
            groups@.map_values(|group: SectionGroup| group@),
        ),
{
    let ghost views = groups@.map_values(|group: SectionGroup| group@);
    let mut plan: Vec<Assignment> = Vec::new();
    let mut at: usize = 0;
    proof {
        assert(views.take(0) =~= Seq::<Grouping>::empty());
    }
    while at < groups.len()
        invariant
            at <= groups.len(),
            views == groups@.map_values(|group: SectionGroup| group@),
            plan@ == organize_plan(items@, store_id, views.take(at as int)),
            plan_fits(items@, store_id, views.take(at as int)),
        decreases groups.len() - at,
    {
        let group = &groups[at];
        let start = max_ord(items, Some(store_id), Some(group.section_id));
        proof {
            assert(views[at as int] == group@);
            assert(views.take(at + 1).drop_last() =~= views.take(at as int));
            assert(views.take(at + 1).last() == group@);
        }
        let mut numbered = match number_group(group, start) {
            Some(numbered) => numbered,
            None => {
                return None;
            },
        };
        plan.append(&mut numbered);
        proof {
            let more = views.take(at + 1);
            assert forall|g: int| 0 <= g < more.len() implies max_ord_of(
                items@,
                Some(store_id),
                Some((#[trigger] more[g]).section_id),
            ) + more[g].item_ids.len() <= i64::MAX by {
                if g < at {
                    assert(more[g] == views.take(at as int)[g]);
                }
            }
        }
        at += 1;
    }
    proof {
        assert(views.take(at as int) =~= views);
    }
    Some(plan)
}

/// The last assignment of the plan for the item, if it has one.
pub open spec fn assigned(plan: Seq<Assignment>, item_id: i64) -> Option<Assignment>
    decreases plan.len(),
{
    if plan.len() == 0 {
        None
    } else if plan.last().item_id == item_id {
        Some(plan.last())
    } else {
        assigned(plan.drop_last(), item_id)
    }
}

/// An item's assignment is one of the plan's, and for that item.
pub proof fn lemma_assigned(plan: Seq<Assignment>, item_id: i64)
    ensures
        assigned(plan, item_id) matches Some(to) ==> to.item_id == item_id && plan.contains(to),
        assigned(plan, item_id) is None ==> forall|k: int|
            0 <= k < plan.len() ==> (#[trigger] plan[k]).item_id != item_id,
    decreases plan.len(),
{
    if plan.len() > 0 {
        if plan.last().item_id == item_id {
            assert(plan[plan.len() - 1] == plan.last());
        } else {
            lemma_assigned(plan.drop_last(), item_id);
            if assigned(plan, item_id) is Some {
                let to = assigned(plan, item_id)->0;
                let k = choose|k: int| 0 <= k < plan.drop_last().len() && plan.drop_last()[k] == to;
                assert(plan[k] == to);
            } else {
                assert forall|k: int| 0 <= k < plan.len() implies (#[trigger] plan[k]).item_id
                    != item_id by {
                    if k < plan.len() - 1 {
                        assert(plan.drop_last()[k] == plan[k]);
                    }
                }
            }
        }
    }
}

/// The last assignment of the plan for the item, if it has one.
pub fn last_assignment(plan: &Vec<Assignment>, item_id: i64) -> (found: Option<Assignment>)
    ensures
        found == assigned(plan@, item_id),
{
    let mut at: usize = plan.len();
    proof {
        assert(plan@.take(at as int) =~= plan@);
    }
    while at > 0
        invariant
            at <= plan.len(),
            assigned(plan@, item_id) == assigned(plan@.take(at as int), item_id),
        decreases at,
    {
        proof {
            assert(plan@.take(at as int).drop_last() =~= plan@.take(at - 1));
        }
        at -= 1;
        if plan[at].item_id == item_id {
            return Some(plan[at]);
        }
    }
    None
}

/// What a row becomes under the plan: an item that the plan assigns gets the
/// section and the order value of its last assignment, and the time; any
/// other row stays as it is.
pub open spec fn reassigned(row: Item, plan: Seq<Assignment>, now: i128) -> Item {
    match assigned(plan, row.id) {
        Some(to) => Item { section_id: Some(to.section_id), ord: to.ord, updated_at: now, ..row },
        None => row,
    }
}

/// `reassigned` as a function of the row.
pub open spec fn reassign(plan: Seq<Assignment>, now: i128) -> spec_fn(Item) -> Item {
    |row: Item| reassigned(row, plan, now)
}

/// The rows under the plan.
pub fn apply_plan(items: &Vec<Item>, plan: &Vec<Assignment>, now: i128) -> (rows: Vec<Item>)
    ensures
        rows@ == items@.map_values(reassign(plan@, now)),
{
    let mut rows: Vec<Item> = Vec::new();
    let mut at: usize = 0;
    while at < items.len()
        invariant
            at <= items.len(),
            rows@.len() == at,
            forall|i: int| 0 <= i < at ==> #[trigger] rows@[i] == reassigned(items@[i], plan@, now),
        decreases items.len() - at,
    {
        let row = &items[at];
        match last_assignment(plan, row.id) {
            Some(to) => {
                rows.push(
                    Item {
                        id: row.id,
                        store_id: row.store_id,
                        section_id: Some(to.section_id),
                        name: row.name.clone(),
                        checked: row.checked,
                        ord: to.ord,
                        created_at: row.created_at,
                        updated_at: now,
                    },
                );
            },
            None => {
                rows.push(row.clone());
            },
        }
        at += 1;
    }
    proof {
        assert(rows@ =~= items@.map_values(reassign(plan@, now)));
    }
    rows
}

/// Why the classifier gave no answer.
#[derive(Debug, Clone, Copy, PartialEq, Eq, Structural)]
pub enum PromptError {
    /// The call failed.
    OpenAi,
    /// The answer was not of the agreed form.
    InvalidResponse,
}

impl PromptError {
    /// The error in words.
    pub fn message(&self) -> (text: String)
        ensures
            text@ == (match *self {
                PromptError::OpenAi => "openai error"@,
                PromptError::InvalidResponse => "invalid response recieved"@,
            }),
    {
        match self {
            PromptError::OpenAi => "openai error".to_owned(),
            PromptError::InvalidResponse => "invalid response recieved".to_owned(),
        }
    }
}

/// Every assignment is for one of the items and to one of the sections.
pub open spec fn plan_within(plan: Seq<Assignment>, items: Seq<Item>, sections: Seq<Section>) -> bool {
    forall|k: int|
        0 <= k < plan.len() ==> has_key(items, (#[trigger] plan[k]).item_id) && has_key(
            sections,
            plan[k].section_id,
        )
}

/// Every group is for one of the sections and holds only items of `items`.
pub open spec fn groups_within(groups: Seq<Grouping>, items: Seq<Item>, sections: Seq<Section>) -> bool {
    forall|g: int, j: int|
        0 <= g < groups.len() && 0 <= j < groups[g].item_ids.len() ==> has_key(
            items,
            #[trigger] groups[g].item_ids[j],
        ) && has_key(sections, groups[g].section_id)
}

/// Groups made of valid proposals hold only candidates.
pub proof fn lemma_grouped_within(
    pairs: Seq<Categorization>,
    items: Seq<Item>,
    sections: Seq<Section>,
)
    requires
        forall|i: int| 0 <= i < pairs.len() ==> names_candidates(items, sections)(#[trigger] pairs[i]),
    ensures
        groups_within(grouped(pairs), items, sections),
{
    let groups = grouped(pairs);
    assert forall|g: int, j: int|
        0 <= g < groups.len() && 0 <= j < groups[g].item_ids.len() implies has_key(
        items,
        #[trigger] groups[g].item_ids[j],
    ) && has_key(sections, groups[g].section_id) by {
        let section_id = sections_named(pairs)[g];
        let chosen = pairs.filter(proposes(section_id));
        assert(groups[g].item_ids == chosen.map_values(proposed_item()));
        pairs.lemma_filter_pred(proposes(section_id), j);
        assert(chosen.contains(chosen[j]));
        pairs.lemma_filter_contains_rev(proposes(section_id), chosen[j]);
        let i = choose|i: int| 0 <= i < pairs.len() && pairs[i] == chosen[j];
        assert(names_candidates(items, sections)(pairs[i]));
    }
}

/// A plan made of groups that hold only candidates assigns only candidates.
pub proof fn lemma_plan_within(
    rows: Seq<Item>,
    store_id: i64,
    groups: Seq<Grouping>,
    items: Seq<Item>,
    sections: Seq<Section>,
)
    requires
        groups_within(groups, items, sections),
    ensures
        plan_within(organize_plan(rows, store_id, groups), items, sections),
    decreases groups.len(),
{
    if groups.len() > 0 {
        let front = groups.drop_last();
        assert forall|g: int, j: int|
            0 <= g < front.len() && 0 <= j < front[g].item_ids.len() implies has_key(
            items,
            #[trigger] front[g].item_ids[j],
        ) && has_key(sections, front[g].section_id) by {
            assert(front[g] == groups[g]);
            assert(has_key(items, groups[g].item_ids[j]));
        }
        lemma_plan_within(rows, store_id, front, items, sections);
        let head = organize_plan(rows, store_id, front);
        let last = groups.last();
        let tail = group_plan(last, max_ord_of(rows, Some(store_id), Some(last.section_id)));
        let plan = organize_plan(rows, store_id, groups);
        assert forall|k: int| 0 <= k < plan.len() implies has_key(
            items,
            (#[trigger] plan[k]).item_id,
        ) && has_key(sections, plan[k].section_id) by {
            if k < head.len() {
                assert(plan[k] == head[k]);
            } else {
                let j = k - head.len();
                assert(plan[k] == tail[j]);
                assert(has_key(items, groups[groups.len() - 1].item_ids[j]));
            }
        }
    }
}

/// The groups that a proposal for the store comes to: the proposals that name
/// an active item of the store outside its sections and a section of the
/// store, by section.
pub open spec fn proposal_groups(
    items: Seq<Item>,
    sections: Seq<Section>,
    store_id: i64,
    categorized: Seq<Categorization>,
) -> Seq<Grouping> {
    grouped(
        categorized.filter(
            names_candidates(
                scope_items(items, Some(store_id), None),
                sections.filter(of_store(store_id)),
            ),
        ),
    )
}

/// Puts the unassigned items of the store into its sections as the classifier
/// proposed. A proposal that names anything but an active item of the store
/// outside its sections and a section of the store is dropped. The others are
/// grouped by section; the items of a group go to the end of their section,
/// in the order in which they were proposed. Where the classifier failed, or
/// an order value would leave its range, nothing is changed and the failure
/// is internal.
pub fn organize(
    db: &mut Db,
    store_id: i64,
    outcome: Result<CategorizationResponse, PromptError>,
    now: i128,
) -> (done: Result<(), Problem>)
    requires
        old(db).wf(),
    ensures
        final(db).wf(),
        done is Err ==> *final(db) == *old(db) && done->Err_0.status
            == crate::handler::STATUS_INTERNAL_SERVER_ERROR && done->Err_0.message@
            == "Internal Server Error"@,
        final(db).stores == old(db).stores,
        final(db).sections == old(db).sections,
        final(db).last_store_id == old(db).last_store_id,
        final(db).last_section_id == old(db).last_section_id,
        final(db).last_item_id == old(db).last_item_id,
        outcome is Err ==> done is Err,
        outcome matches Ok(response) ==> ({
            let groups = proposal_groups(
                old(db).items@,
                old(db).sections@,
                store_id,
                response.categorized@,
            );
            if plan_fits(old(db).items@, store_id, groups) {
                done is Ok && final(db).items@ == old(db).items@.map_values(
                    reassign(organize_plan(old(db).items@, store_id, groups), now),
                )
            } else {
                done is Err
            }
        }),
{
    let categorized = match outcome {
        Ok(response) => response.categorized,
        Err(_) => {
            return Err(Problem::internal());
        },
    };
    let items = active_items(&db.items, Some(store_id), None);
    let sections = sections_of(&db.sections, store_id);
    let valid = valid_pairs(&categorized, &items, &sections);
    let groups = group_pairs(&valid);
    let plan = match plan_groups(&db.items, store_id, &groups) {
        Some(plan) => plan,
        None => {
            return Err(Problem::internal());
        },
    };
    let rows = apply_plan(&db.items, &plan, now);
    proof {
        let before = db.items@;
        assert forall|i: int| 0 <= i < valid@.len() implies names_candidates(items@, sections@)(
            #[trigger] valid@[i],
        ) by {
            categorized@.lemma_filter_pred(names_candidates(items@, sections@), i);
        }
        lemma_grouped_within(valid@, items@, sections@);
        lemma_plan_within(before, store_id, grouped(valid@), items@, sections@);
        lemma_kept_rows(before, in_scope(Some(store_id), None), db.last_item_id);
        lemma_kept_rows(db.sections@, of_store(store_id), db.last_section_id);
        assert forall|i: int| 0 <= i < rows@.len() implies (#[trigger] rows@[i]).key()
            == before[i].key() by {}
        assert forall|i: int, j: int|
            #![trigger rows@[i], rows@[j]]
            0 <= i < j < rows@.len() implies rows@[i].key() != rows@[j].key() by {
            assert(before[i].key() != before[j].key());
        }
        assert forall|i: int| 0 <= i < rows@.len() implies placed(
            #[trigger] rows@[i],
            db.stores@,
            db.sections@,
        ) by {
            let row = before[i];
            assert(placed(row, db.stores@, db.sections@));
            lemma_assigned(plan@, row.id);
            if assigned(plan@, row.id) is Some {
                let to = assigned(plan@, row.id)->0;
                let k = choose|k: int| 0 <= k < plan@.len() && plan@[k] == to;
                assert(has_key(items@, plan@[k].item_id) && has_key(sections@, plan@[k].section_id));
                let c = choose|c: int| 0 <= c < items@.len() && (#[trigger] items@[c]).key() == row.id;
                assert(in_scope(Some(store_id), None)(items@[c]) && before.contains(items@[c]));
                let w = choose|w: int| 0 <= w < before.len() && before[w] == items@[c];
                if w < i {
                    assert(before[w].key() != before[i].key());
                } else if i < w {
                    assert(before[i].key() != before[w].key());
                }
                assert(row.store_id == Some(store_id));
                let v = choose|v: int|
                    0 <= v < sections@.len() && (#[trigger] sections@[v]).key() == to.section_id;
                assert(of_store(store_id)(sections@[v]) && db.sections@.contains(sections@[v]));
                let u = choose|u: int| 0 <= u < db.sections@.len() && db.sections@[u] == sections@[v];
                assert(db.sections@[u].id == to.section_id && db.sections@[u].store_id == store_id);
            }
        }
    }
    db.items = rows;
    Ok(())
}

} // verus!
