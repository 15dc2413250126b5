//! The technology tree: the catalog of technologies, how far a faction's
//! research has come, what the tree and the detail pane show of each
//! technology, and how deep each one sits below its prerequisites.

use vstd::prelude::*;
use crate::tags::TagSet;
use crate::text::{nondecreasing, owned, sort_strings, str_eq, string_views};

verus! {

/// The two branches of the tree.
#[derive(Clone, Copy, Debug, PartialEq, Eq, Structural)]
pub enum TechnologyBranch {
    Military,
    Domestic,
}

/// One technology of the catalog.
#[derive(Clone, Debug)]
pub struct TechnologySpec {
    pub id: String,
    pub name: String,
    pub branch: TechnologyBranch,
    /// Identifiers of the technologies that must be completed first.
    pub prerequisites: Vec<String>,
    /// Turns of research it takes.
    pub turns: u32,
    /// Gold it costs before any discount.
    pub gold_cost: i64,
    pub effect: String,
    pub icon_id: String,
}

/// All technologies, in catalog order.
#[derive(Clone, Debug)]
pub struct TechnologyCatalog {
    pub specs: Vec<TechnologySpec>,
}

/// Where a faction's research stands.
#[derive(Debug)]
pub struct FactionTechnologyState {
    /// The technology under research, if any.
    pub active: Option<String>,
    /// Turns of research done, by technology.
    pub progress: Vec<(String, u32)>,
    /// Technologies paid for.
    pub funded: TagSet,
    /// Technologies completed.
    pub completed: TagSet,
}

/// The position of the first technology of `specs` with identifier `id`.
pub open spec fn tech_index(specs: Seq<TechnologySpec>, id: Seq<char>) -> Option<int>
    decreases specs.len(),
{
    if specs.len() == 0 {
        None
    } else if specs[0].id@ == id {
        Some(0)
    } else {
        match tech_index(specs.drop_first(), id) {
            Some(i) => Some(i + 1),
            None => None,
        }
    }
}

/// `tech_index` finds the first technology with the identifier, or says
/// that there is none.
pub proof fn lemma_tech_index(specs: Seq<TechnologySpec>, id: Seq<char>)
    ensures
        match tech_index(specs, id) {
            Some(i) => 0 <= i < specs.len() && specs[i].id@ == id && forall|k: int| 0 <= k < i ==> specs[k].id@ != id,
            None => forall|k: int| 0 <= k < specs.len() ==> specs[k].id@ != id,
        },
    decreases specs.len(),
{
    if specs.len() > 0 {
        lemma_tech_index(specs.drop_first(), id);
        assert forall|k: int| 1 <= k < specs.len() implies specs[k] == specs.drop_first()[k - 1] by {}
    }
}

/// What a technology is called: its name where the catalog has it, else the
/// identifier itself.
pub open spec fn tech_name_or_id(specs: Seq<TechnologySpec>, id: Seq<char>) -> Seq<char> {
    match tech_index(specs, id) {
        Some(k) => specs[k].name@,
        None => id,
    }
}

/// The turns of research recorded for `id`: the first entry for it, else 0.
pub open spec fn progress_of(entries: Seq<(String, u32)>, id: Seq<char>) -> u32
    decreases entries.len(),
{
    if entries.len() == 0 {
        0
    } else if entries[0].0@ == id {
        entries[0].1
    } else {
        progress_of(entries.drop_first(), id)
    }
}

impl TechnologyCatalog {
    /// The position of technology `id` in the catalog.
    pub fn find(&self, id: &str) -> (r: Option<usize>)
        ensures
            match r {
                Some(i) => tech_index(self.specs@, id@) == Some(i as int) && i < self.specs@.len(),
                None => tech_index(self.specs@, id@) is None,
            },
    {
        proof {
            lemma_tech_index(self.specs@, id@);
        }
        let mut i: usize = 0;
        while i < self.specs.len()
            invariant
                i <= self.specs.len(),
                forall|k: int| 0 <= k < i ==> (#[trigger] self.specs@[k]).id@ != id@,
                match tech_index(self.specs@, id@) {
                    Some(j) => 0 <= j < self.specs.len() && self.specs@[j].id@ == id@
                        && forall|k: int| 0 <= k < j ==> self.specs@[k].id@ != id@,
                    None => forall|k: int| 0 <= k < self.specs.len() ==> self.specs@[k].id@ != id@,
                },
            decreases self.specs.len() - i,
        {
            if str_eq(self.specs[i].id.as_str(), id) {
                return Some(i);
            }
            i = i + 1;
        }
        None
    }

    /// The identifier of the first technology of `branch`, if the branch has
    /// any.
    pub fn first_id_for_branch(&self, branch: TechnologyBranch) -> (r: Option<String>)
        ensures
            match r {
                Some(id) => exists|k: int|
                    0 <= k < self.specs@.len() && (#[trigger] self.specs@[k]).branch == branch && id@ == self.specs@[k].id@
                        && forall|j: int| 0 <= j < k ==> self.specs@[j].branch != branch,
                None => forall|k: int| 0 <= k < self.specs@.len() ==> (#[trigger] self.specs@[k]).branch != branch,
            },
    {
        let mut i: usize = 0;
        while i < self.specs.len()
            invariant
                i <= self.specs.len(),
                forall|k: int| 0 <= k < i ==> (#[trigger] self.specs@[k]).branch != branch,
            decreases self.specs.len() - i,
        {
            if self.specs[i].branch == branch {
                return Some(owned(self.specs[i].id.as_str()));
            }
            i = i + 1;
        }
        None
    }

    /// The positions of the technologies of `branch`, in catalog order.
    pub fn specs_for_branch(&self, branch: TechnologyBranch) -> (r: Vec<usize>)
        ensures
            forall|i: int, j: int| 0 <= i < j < r@.len() ==> r@[i] < r@[j],
            forall|i: int| 0 <= i < r@.len() ==> r@[i] < self.specs@.len() && self.specs@[r@[i] as int].branch == branch,
            forall|k: int| 0 <= k < self.specs@.len() && (#[trigger] self.specs@[k]).branch == branch ==> r@.contains(k as usize),
    {
        let mut r: Vec<usize> = Vec::new();
        let mut i: usize = 0;
        while i < self.specs.len()
            invariant
                i <= self.specs.len(),
                forall|a: int, b: int| 0 <= a < b < r@.len() ==> r@[a] < r@[b],
                forall|a: int| 0 <= a < r@.len() ==> r@[a] < i && self.specs@[r@[a] as int].branch == branch,
                forall|k: int| 0 <= k < i && (#[trigger] self.specs@[k]).branch == branch ==> r@.contains(k as usize),
            decreases self.specs.len() - i,
        {
            if self.specs[i].branch == branch {
                let ghost before = r@;
                r.push(i);
                assert forall|k: int| 0 <= k < i + 1 && (#[trigger] self.specs@[k]).branch == branch implies r@.contains(k as usize) by {
                    if k < i {
                        let a = choose|a: int| 0 <= a < before.len() && before[a] == k as usize;
                        assert(r@[a] == k as usize);
                    } else {
                        assert(r@[before.len() as int] == k as usize);
                    }
                }
            }
            i = i + 1;
        }
        r
    }
}

/// Whether `id` is one of the identifiers of `v`.
pub fn contains_id(v: &Vec<String>, id: &str) -> (b: bool)
    ensures
        b == string_views(v@).contains(id@),
{
    let mut i: usize = 0;
    while i < v.len()
        invariant
            i <= v.len(),
            forall|k: int| 0 <= k < i ==> (#[trigger] v@[k])@ != id@,
        decreases v.len() - i,
    {
        if str_eq(v[i].as_str(), id) {
            assert(string_views(v@)[i as int] == id@);
            return true;
        }
        i = i + 1;
    }
    false
}

/// The turns of research that `state` records for technology `id`.
pub fn technology_progress(state: &FactionTechnologyState, id: &str) -> (p: u32)
    ensures
        p == progress_of(state.progress@, id@),
{
    let mut i: usize = 0;
    assert(state.progress@.skip(0) =~= state.progress@);
    while i < state.progress.len()
        invariant
            i <= state.progress.len(),
            progress_of(state.progress@, id@) == progress_of(state.progress@.skip(i as int), id@),
        decreases state.progress.len() - i,
    {
        assert(state.progress@.skip(i as int).drop_first() =~= state.progress@.skip(i as int + 1));
        if str_eq(state.progress[i].0.as_str(), id) {
            return state.progress[i].1;
        }
        i = i + 1;
    }
    0
}

/// The names of the prerequisites of `spec`, in its order; a prerequisite
/// missing from the catalog is shown by its identifier.
pub fn prerequisite_names(spec: &TechnologySpec, catalog: &TechnologyCatalog) -> (names: Vec<String>)
    ensures
        names@.len() == spec.prerequisites@.len(),
        forall|i: int| 0 <= i < names@.len() ==> (#[trigger] names@[i])@ == tech_name_or_id(
            catalog.specs@,
            spec.prerequisites@[i]@,
        ),
{
    let mut names: Vec<String> = Vec::new();
    let mut i: usize = 0;
    while i < spec.prerequisites.len()
        invariant
            i <= spec.prerequisites.len(),
            names@.len() == i,
            forall|k: int| 0 <= k < i ==> (#[trigger] names@[k])@ == tech_name_or_id(catalog.specs@, spec.prerequisites@[k]@),
        decreases spec.prerequisites.len() - i,
    {
        let id = spec.prerequisites[i].as_str();
        match catalog.find(id) {
            Some(k) => names.push(owned(catalog.specs[k].name.as_str())),
            None => names.push(owned(id)),
        }
        i = i + 1;
    }
    names
}

/// How a technology stands for the player, as the tree shows it.
#[derive(Clone, Copy, Debug, PartialEq, Eq, Structural)]
pub enum TechnologyNodeStatus {
    Completed,
    Active,
    Funded,
    Available,
    Unaffordable,
    Locked,
}

/// Whether `state` marks `id` completed.
pub open spec fn is_completed(state: Option<&FactionTechnologyState>, id: Seq<char>) -> bool {
    state matches Some(s) && s.completed@.contains(id)
}

/// Whether `state` has `id` under research.
pub open spec fn is_active(state: Option<&FactionTechnologyState>, id: Seq<char>) -> bool {
    state matches Some(s) && s.active matches Some(a) && a@ == id
}

/// Whether `state` marks `id` paid for.
pub open spec fn is_funded(state: Option<&FactionTechnologyState>, id: Seq<char>) -> bool {
    state matches Some(s) && s.funded@.contains(id)
}

/// The status of technology `id`: completed, under research, or paid for,
/// in that order; else locked while prerequisites are missing; else
/// available when the player's gold covers the cost.
pub open spec fn node_status(
    state: Option<&FactionTechnologyState>,
    id: Seq<char>,
    missing: Option<Seq<String>>,
    cost: Option<i64>,
    total_gold: i64,
) -> TechnologyNodeStatus {
    if is_completed(state, id) {
        TechnologyNodeStatus::Completed
    } else if is_active(state, id) {
        TechnologyNodeStatus::Active
    } else if is_funded(state, id) {
        TechnologyNodeStatus::Funded
    } else if missing matches Some(m) && m.len() > 0 {
        TechnologyNodeStatus::Locked
    } else if cost matches Some(c) && total_gold >= c {
        TechnologyNodeStatus::Available
    } else {
        TechnologyNodeStatus::Unaffordable
    }
}

fn state_completed(state: Option<&FactionTechnologyState>, id: &str) -> (b: bool)
    ensures
        b == is_completed(state, id@),
{
    match state {
        Some(s) => s.completed.contains(id),
        None => false,
    }
}

fn state_active(state: Option<&FactionTechnologyState>, id: &str) -> (b: bool)
    ensures
        b == is_active(state, id@),
{
    match state {
        Some(s) => match &s.active {
            Some(a) => str_eq(a.as_str(), id),
            None => false,
        },
        None => false,
    }
}

fn state_funded(state: Option<&FactionTechnologyState>, id: &str) -> (b: bool)
    ensures
        b == is_funded(state, id@),
{
    match state {
        Some(s) => s.funded.contains(id),
        None => false,
    }
}

/// The status of `spec` in the tree. `missing` holds the prerequisites the
/// faction still lacks where the game could tell them, `cost` what the
/// research would cost the player where the game could tell it, and
/// `total_gold` the player's gold.
pub fn technology_node_status(
    state: Option<&FactionTechnologyState>,
    spec: &TechnologySpec,
    missing: Option<&Vec<String>>,
    cost: Option<i64>,
    total_gold: i64,
) -> (s: TechnologyNodeStatus)
    ensures
        s == node_status(state, spec.id@, match missing { Some(m) => Some(m@), None => None }, cost, total_gold),
{
    let id = spec.id.as_str();
    if state_completed(state, id) {
        return TechnologyNodeStatus::Completed;
    }
    if state_active(state, id) {
        return TechnologyNodeStatus::Active;
    }
    if state_funded(state, id) {
        return TechnologyNodeStatus::Funded;
    }
    let locked = match missing {
        Some(m) => m.len() > 0,
        None => false,
    };
    if locked {
        return TechnologyNodeStatus::Locked;
    }
    match cost {
        Some(c) => {
            if total_gold >= c {
                TechnologyNodeStatus::Available
            } else {
                TechnologyNodeStatus::Unaffordable
            }
        },
        None => TechnologyNodeStatus::Unaffordable,
    }
}

/// The position of the first technology of `branch`.
pub open spec fn branch_start(specs: Seq<TechnologySpec>, branch: TechnologyBranch) -> Option<int>
    decreases specs.len(),
{
    if specs.len() == 0 {
        None
    } else if specs[0].branch == branch {
        Some(0)
    } else {
        match branch_start(specs.drop_first(), branch) {
            Some(i) => Some(i + 1),
            None => None,
        }
    }
}

/// `branch_start` finds the first technology of the branch, or says that
/// there is none.
pub proof fn lemma_branch_start(specs: Seq<TechnologySpec>, branch: TechnologyBranch)
    ensures
        match branch_start(specs, branch) {
            Some(i) => 0 <= i < specs.len() && specs[i].branch == branch && forall|k: int| 0 <= k < i ==> specs[k].branch != branch,
            None => forall|k: int| 0 <= k < specs.len() ==> specs[k].branch != branch,
        },
    decreases specs.len(),
{
    if specs.len() > 0 {
        lemma_branch_start(specs.drop_first(), branch);
        assert forall|k: int| 1 <= k < specs.len() implies specs[k] == specs.drop_first()[k - 1] by {}
    }
}

/// The identifier of the first technology of `branch`, or `fallback` when
/// the branch has none.
pub open spec fn branch_first_or(specs: Seq<TechnologySpec>, branch: TechnologyBranch, fallback: Seq<char>) -> Seq<char> {
    match branch_start(specs, branch) {
        Some(k) => specs[k].id@,
        None => fallback,
    }
}

impl TechnologyCatalog {
    /// The identifier of the first technology of `branch`.
    pub fn first_of_branch(&self, branch: TechnologyBranch) -> (r: Option<String>)
        ensures
            match r {
                Some(id) => branch_start(self.specs@, branch) matches Some(k) && id@ == self.specs@[k].id@,
                None => branch_start(self.specs@, branch) is None,
            },
    {
        proof {
            lemma_branch_start(self.specs@, branch);
        }
        self.first_id_for_branch(branch)
    }
}

/// The technology that stays selected when the tree shows `branch`: the
/// selected one if it belongs to that branch, else the first of the branch,
/// else none (the empty identifier).
pub open spec fn branch_selection(specs: Seq<TechnologySpec>, branch: TechnologyBranch, selected: Seq<char>) -> Seq<char> {
    if tech_index(specs, selected) matches Some(k) && specs[k].branch == branch {
        selected
    } else {
        branch_first_or(specs, branch, Seq::empty())
    }
}

/// The technology that stays selected when the tree shows `branch`.
pub fn technology_selection_for_branch(catalog: &TechnologyCatalog, branch: TechnologyBranch, selected: &str) -> (r: String)
    ensures
        r@ == branch_selection(catalog.specs@, branch, selected@),
{
    let keep = match catalog.find(selected) {
        Some(k) => catalog.specs[k].branch == branch,
        None => false,
    };
    if keep {
        return owned(selected);
    }
    match catalog.first_of_branch(branch) {
        Some(id) => id,
        None => {
            let e = String::new();
            assert(e@ =~= Seq::<char>::empty());
            e
        },
    }
}

/// Drawing the tree again keeps the selection it settled on: what stays
/// selected for a branch stays selected when the same branch is shown again.
pub proof fn lemma_branch_selection_stable(specs: Seq<TechnologySpec>, branch: TechnologyBranch, selected: Seq<char>)
    ensures
        branch_selection(specs, branch, branch_selection(specs, branch, selected)) == branch_selection(specs, branch, selected),
{
    let once = branch_selection(specs, branch, selected);
    lemma_branch_start(specs, branch);
    lemma_tech_index(specs, once);
    if !(tech_index(specs, selected) matches Some(k) && specs[k].branch == branch) {
        if let Some(k0) = branch_start(specs, branch) {
            lemma_tech_index(specs, specs[k0].id@);
            if let Some(j) = tech_index(specs, once) {
                assert(j <= k0);
            }
        }
    }
}

/// The technology selected after switching the tree to `branch`: the first
/// of that branch, or the one selected before when the branch is empty.
pub fn technology_selection_after_switch(catalog: &TechnologyCatalog, branch: TechnologyBranch, selected: &str) -> (r: String)
    ensures
        r@ == branch_first_or(catalog.specs@, branch, selected@),
{
    match catalog.first_of_branch(branch) {
        Some(id) => id,
        None => owned(selected),
    }
}

/// How the detail pane shows the prerequisites of a technology.
#[derive(Debug)]
pub enum PrerequisiteDisplay {
    /// It has none.
    NoneRequired,
    /// None is missing: the names of all of them.
    Met(Vec<String>),
    /// These are still missing.
    Missing(Vec<String>),
}

/// What the detail pane offers for a technology.
#[derive(Clone, Copy, Debug, PartialEq, Eq, Structural)]
pub enum TechnologyAction {
    /// Done already; nothing to do.
    Completed,
    /// Under research; the button shows the progress.
    Researching,
    /// Prerequisites are missing.
    PrerequisitesLocked,
    /// Paid for: research can go on.
    ContinueResearch,
    /// The player lacks this much gold.
    GoldShortfall { shortfall: i64 },
    /// Research can start.
    StartResearch,
}

/// What the detail pane offers: completed and under-research come first,
/// then missing prerequisites, then a paid-for technology, then the gold.
pub open spec fn detail_action(
    state: Option<&FactionTechnologyState>,
    id: Seq<char>,
    missing_none: bool,
    cost: i64,
    total_gold: i64,
) -> TechnologyAction {
    if is_completed(state, id) {
        TechnologyAction::Completed
    } else if is_active(state, id) {
        TechnologyAction::Researching
    } else if !missing_none {
        TechnologyAction::PrerequisitesLocked
    } else if is_funded(state, id) {
        TechnologyAction::ContinueResearch
    } else if total_gold < cost {
        TechnologyAction::GoldShortfall { shortfall: (cost - total_gold) as i64 }
    } else {
        TechnologyAction::StartResearch
    }
}

/// The detail pane of one technology.
#[derive(Debug)]
pub struct TechnologyDetailView {
    pub name: String,
    pub branch: TechnologyBranch,
    pub turns: u32,
    /// What research costs the player.
    pub cost: i64,
    /// The catalog cost, shown when the player's cost differs from it.
    pub catalog_cost: Option<i64>,
    pub total_gold: i64,
    /// Turns of research done.
    pub progress: u32,
    pub prerequisites: PrerequisiteDisplay,
    pub effect: String,
    pub action: TechnologyAction,
}

/// The cost the detail pane works with: the player's cost where the game
/// could tell it, else the catalog cost.
pub open spec fn detail_cost(spec: TechnologySpec, effective_cost: Option<i64>) -> i64 {
    match effective_cost {
        Some(c) => c,
        None => spec.gold_cost,
    }
}

/// Pane `v` shows technology `spec` for a faction in `state`, with the
/// missing prerequisites `missing`, the player's cost `effective_cost` and
/// gold `total_gold`.
pub open spec fn detail_view_of(
    v: TechnologyDetailView,
    specs: Seq<TechnologySpec>,
    spec: TechnologySpec,
    state: Option<&FactionTechnologyState>,
    effective_cost: Option<i64>,
    missing: Seq<Seq<char>>,
    total_gold: i64,
) -> bool {
    let cost = detail_cost(spec, effective_cost);
    &&& v.name@ == spec.name@
    &&& v.branch == spec.branch
    &&& v.turns == spec.turns
    &&& v.cost == cost
    &&& v.catalog_cost == (if cost != spec.gold_cost { Some(spec.gold_cost) } else { None::<i64> })
    &&& v.total_gold == total_gold
    &&& v.progress == (match state { Some(s) => progress_of(s.progress@, spec.id@), None => 0 })
    &&& match v.prerequisites {
        PrerequisiteDisplay::NoneRequired => spec.prerequisites@.len() == 0,
        PrerequisiteDisplay::Met(names) => spec.prerequisites@.len() > 0 && missing.len() == 0
            && names@.len() == spec.prerequisites@.len()
            && forall|i: int| 0 <= i < names@.len() ==> (#[trigger] names@[i])@ == tech_name_or_id(specs, spec.prerequisites@[i]@),
        PrerequisiteDisplay::Missing(names) => spec.prerequisites@.len() > 0 && missing.len() > 0 && string_views(names@) == missing,
    }
    &&& v.effect@ == spec.effect@
    &&& v.action == detail_action(state, spec.id@, missing.len() == 0, cost, total_gold)
}

fn copy_strings(v: &Vec<String>) -> (r: Vec<String>)
    ensures
        string_views(r@) == string_views(v@),
{
    let mut r: Vec<String> = Vec::new();
    let mut i: usize = 0;
    while i < v.len()
        invariant
            i <= v.len(),
            string_views(r@) == string_views(v@).take(i as int),
        decreases v.len() - i,
    {
        let ghost before = r@;
        r.push(owned(v[i].as_str()));
        assert(string_views(r@) =~= string_views(before).push(v@[i as int]@));
        assert(string_views(v@).take(i as int + 1) =~= string_views(v@).take(i as int).push(v@[i as int]@));
        i = i + 1;
    }
    assert(string_views(v@).take(v@.len() as int) =~= string_views(v@));
    r
}

/// The detail pane of the selected technology, or `None` when the catalog
/// has no technology `selected_id`. `missing` holds the prerequisites the
/// faction still lacks where the game could tell them (none otherwise),
/// `effective_cost` the player's cost where the game could tell it.
pub fn technology_detail_view(
    catalog: &TechnologyCatalog,
    selected_id: &str,
    state: Option<&FactionTechnologyState>,
    effective_cost: Option<i64>,
    missing: Option<&Vec<String>>,
    total_gold: i64,
) -> (r: Option<TechnologyDetailView>)
    requires
        tech_index(catalog.specs@, selected_id@) matches Some(k) ==> (total_gold < detail_cost(catalog.specs@[k], effective_cost)
            ==> detail_cost(catalog.specs@[k], effective_cost) - total_gold <= i64::MAX),
    ensures
        match tech_index(catalog.specs@, selected_id@) {
            None => r is None,
            Some(k) => r matches Some(v) && detail_view_of(
                v,
                catalog.specs@,
                catalog.specs@[k],
                state,
                effective_cost,
                match missing { Some(m) => string_views(m@), None => Seq::empty() },
                total_gold,
            ),
        },
{
    let k = match catalog.find(selected_id) {
        Some(k) => k,
        None => return None,
    };
    let spec = &catalog.specs[k];
    let id = spec.id.as_str();
    let progress = match state {
        Some(s) => technology_progress(s, id),
        None => 0,
    };
    let cost = match effective_cost {
        Some(c) => c,
        None => spec.gold_cost,
    };
    let missing_list: Vec<String> = match missing {
        Some(m) => copy_strings(m),
        None => Vec::new(),
    };
    let ghost mv = match missing { Some(m) => string_views(m@), None => Seq::<Seq<char>>::empty() };
    assert(string_views(missing_list@) =~= mv);
    let missing_none = missing_list.len() == 0;
    let prerequisites = if spec.prerequisites.len() == 0 {
        PrerequisiteDisplay::NoneRequired
    } else if missing_none {
        PrerequisiteDisplay::Met(prerequisite_names(spec, catalog))
    } else {
        PrerequisiteDisplay::Missing(missing_list)
    };
    let action = if state_completed(state, id) {
        TechnologyAction::Completed
    } else if state_active(state, id) {
        TechnologyAction::Researching
    } else if !missing_none {
        TechnologyAction::PrerequisitesLocked
    } else if state_funded(state, id) {
        TechnologyAction::ContinueResearch
    } else if total_gold < cost {
        TechnologyAction::GoldShortfall { shortfall: cost - total_gold }
    } else {
        TechnologyAction::StartResearch
    };
    Some(
        TechnologyDetailView {
            name: owned(spec.name.as_str()),
            branch: spec.branch,
            turns: spec.turns,
            cost,
            catalog_cost: if cost != spec.gold_cost { Some(spec.gold_cost) } else { None },
            total_gold,
            progress,
            prerequisites,
            effect: owned(spec.effect.as_str()),
            action,
        },
    )
}

/// The names of those of `ids` that the catalog has, in the order of `ids`.
pub open spec fn catalog_names(specs: Seq<TechnologySpec>, ids: Seq<Seq<char>>) -> Seq<Seq<char>>
    decreases ids.len(),
{
    if ids.len() == 0 {
        Seq::empty()
    } else {
        let rest = catalog_names(specs, ids.drop_last());
        match tech_index(specs, ids.last()) {
            Some(k) => rest.push(specs[k].name@),
            None => rest,
        }
    }
}

/// What the faction detail window shows of a faction's research.
#[derive(Debug)]
pub struct FactionTechnologySummary {
    /// The name of the technology under research.
    pub active_name: Option<String>,
    /// Turns done and turns needed for it.
    pub progress: Option<(u32, u32)>,
    pub funded_count: usize,
    pub completed_count: usize,
    /// The names of the completed technologies, in lexicographic order.
    pub completed_names: Vec<String>,
}

/// `r` sums up the research of a faction in `state` (none: it has not
/// researched anything) against the catalog `specs`.
pub open spec fn technology_summary_of(r: FactionTechnologySummary, specs: Seq<TechnologySpec>, state: Option<FactionTechnologyState>) -> bool {
    match state {
        None => r.active_name is None && r.progress is None && r.funded_count == 0 && r.completed_count == 0
            && r.completed_names@.len() == 0,
        Some(s) => {
            &&& match s.active {
                Some(a) => match tech_index(specs, a@) {
                    Some(k) => r.active_name matches Some(n) && n@ == specs[k].name@ && r.progress == Some(
                        (progress_of(s.progress@, a@), specs[k].turns),
                    ),
                    None => r.active_name is None && r.progress is None,
                },
                None => r.active_name is None && r.progress is None,
            }
            &&& r.funded_count == s.funded@.len()
            &&& r.completed_count == s.completed@.len()
            &&& nondecreasing(string_views(r.completed_names@))
            &&& string_views(r.completed_names@).to_multiset() == catalog_names(specs, s.completed@).to_multiset()
        },
    }
}

/// The research summary of a faction in `state` (none: it has not
/// researched anything).
pub fn faction_technology_summary(catalog: &TechnologyCatalog, state: Option<&FactionTechnologyState>) -> (r: FactionTechnologySummary)
    ensures
        technology_summary_of(r, catalog.specs@, match state { Some(s) => Some(*s), None => None }),
{
    let s = match state {
        Some(s) => s,
        None => {
            return FactionTechnologySummary {
                active_name: None,
                progress: None,
                funded_count: 0,
                completed_count: 0,
                completed_names: Vec::new(),
            };
        },
    };
    let mut active_name: Option<String> = None;
    let mut progress: Option<(u32, u32)> = None;
    match &s.active {
        Some(a) => match catalog.find(a.as_str()) {
            Some(k) => {
                active_name = Some(owned(catalog.specs[k].name.as_str()));
                progress = Some((technology_progress(s, a.as_str()), catalog.specs[k].turns));
            },
            None => {},
        },
        None => {},
    }
    let ghost ids = s.completed@;
    let mut names: Vec<String> = Vec::new();
    let mut i: usize = 0;
    while i < s.completed.len()
        invariant
            ids == s.completed@,
            i <= ids.len(),
            string_views(names@) == catalog_names(catalog.specs@, ids.take(i as int)),
        decreases ids.len() - i,
    {
        assert(ids.take(i as int + 1).drop_last() =~= ids.take(i as int));
        let ghost before = names@;
        let id = s.completed.get(i);
        match catalog.find(id) {
            Some(k) => {
                names.push(owned(catalog.specs[k].name.as_str()));
                assert(string_views(names@) =~= string_views(before).push(catalog.specs@[k as int].name@));
            },
            None => {
                assert(names@ == before);
            },
        }
        i = i + 1;
    }
    assert(ids.take(ids.len() as int) =~= ids);
    let completed_names = sort_strings(names);
    FactionTechnologySummary {
        active_name,
        progress,
        funded_count: s.funded.len(),
        completed_count: s.completed.len(),
        completed_names,
    }
}

/// `p` is a prerequisite of `node` that the catalog has.
pub open spec fn prerequisite_step(specs: Seq<TechnologySpec>, node: TechnologySpec, p: Seq<char>) -> bool {
    string_views(node.prerequisites@).contains(p) && tech_index(specs, p) is Some
}

/// The technology at position `j` of chain `c` from `start`: `start` first,
/// then each identifier as the catalog has it.
pub open spec fn chain_node(specs: Seq<TechnologySpec>, start: TechnologySpec, c: Seq<Seq<char>>, j: int) -> TechnologySpec {
    if j == 0 {
        start
    } else {
        specs[tech_index(specs, c[j]).unwrap()]
    }
}

/// `c` is a chain of prerequisites from `start` that keeps off `path`: it
/// begins with `start`, each identifier after the first is a prerequisite of
/// the technology before it, and none but the last is on `path` or comes
/// twice. The last may close a cycle; the chain ends there.
pub open spec fn prerequisite_chain(
    specs: Seq<TechnologySpec>,
    start: TechnologySpec,
    path: Seq<Seq<char>>,
    c: Seq<Seq<char>>,
) -> bool {
    &&& c.len() >= 1
    &&& c[0] == start.id@
    &&& forall|i: int| 0 <= i < c.len() - 1 ==> !path.contains(#[trigger] c[i])
    &&& forall|i: int, j: int| 0 <= i < j < c.len() - 1 ==> #[trigger] c[i] != #[trigger] c[j]
    &&& forall|j: int| 0 <= j < c.len() - 1 ==> prerequisite_step(specs, #[trigger] chain_node(specs, start, c, j), c[j + 1])
}

/// The identifiers of the catalog.
pub open spec fn catalog_ids(specs: Seq<TechnologySpec>) -> Set<Seq<char>> {
    specs.map_values(|s: TechnologySpec| s.id@).to_set()
}

/// What bounds the search below `node` with `path` taken: the catalog
/// identifiers off the path, and one more when `node` is not in the catalog.
pub open spec fn depth_measure(specs: Seq<TechnologySpec>, node: TechnologySpec, path: Seq<Seq<char>>) -> nat {
    catalog_ids(specs).difference(path.to_set()).len() + (if catalog_ids(specs).contains(node.id@) { 0nat } else { 1nat })
}

proof fn lemma_in_catalog(specs: Seq<TechnologySpec>, k: int)
    requires
        0 <= k < specs.len(),
    ensures
        catalog_ids(specs).contains(specs[k].id@),
{
    let ids = specs.map_values(|s: TechnologySpec| s.id@);
    assert(ids[k] == specs[k].id@);
}

proof fn lemma_measure_bound(specs: Seq<TechnologySpec>, path: Seq<Seq<char>>)
    ensures
        catalog_ids(specs).difference(path.to_set()).len() <= specs.len(),
        catalog_ids(specs).difference(path.to_set()).finite(),
{
    let ids = specs.map_values(|s: TechnologySpec| s.id@);
    ids.lemma_cardinality_of_set();
    vstd::seq_lib::seq_to_set_is_finite(ids);
    vstd::set_lib::lemma_len_difference(catalog_ids(specs), path.to_set());
    assert(catalog_ids(specs).difference(path.to_set()).subset_of(catalog_ids(specs)));
    vstd::set_lib::lemma_len_subset(catalog_ids(specs).difference(path.to_set()), catalog_ids(specs));
}

proof fn lemma_measure_step(specs: Seq<TechnologySpec>, node: TechnologySpec, path: Seq<Seq<char>>, k: int)
    requires
        0 <= k < specs.len(),
        !path.contains(node.id@),
    ensures
        depth_measure(specs, specs[k], path.push(node.id@)) + 1 <= depth_measure(specs, node, path),
        depth_measure(specs, specs[k], path.push(node.id@)) <= specs.len(),
{
    let s = catalog_ids(specs);
    let x = node.id@;
    lemma_in_catalog(specs, k);
    lemma_measure_bound(specs, path);
    lemma_measure_bound(specs, path.push(x));
    path.lemma_push_to_set_commute(x);
    if s.contains(x) {
        assert(s.difference(path.push(x).to_set()) =~= s.difference(path.to_set()).remove(x));
    } else {
        assert(s.difference(path.push(x).to_set()) =~= s.difference(path.to_set()));
    }
}

proof fn lemma_chain_tail(specs: Seq<TechnologySpec>, start: TechnologySpec, path: Seq<Seq<char>>, c: Seq<Seq<char>>)
    requires
        prerequisite_chain(specs, start, path, c),
        c.len() >= 2,
    ensures
        tech_index(specs, c[1]) is Some,
        prerequisite_chain(specs, specs[tech_index(specs, c[1]).unwrap()], path.push(start.id@), c.skip(1)),
{
    assert(prerequisite_step(specs, chain_node(specs, start, c, 0), c[1]));
    let k = tech_index(specs, c[1]).unwrap();
    lemma_tech_index(specs, c[1]);
    let child = specs[k];
    let t = c.skip(1);
    let q = path.push(start.id@);
    assert forall|i: int| 0 <= i < t.len() - 1 implies !q.contains(#[trigger] t[i]) by {
        assert(t[i] == c[i + 1]);
        assert(!path.contains(c[i + 1]));
        assert(c[0] != c[i + 1]);
        if q.contains(t[i]) {
            let m = choose|m: int| 0 <= m < q.len() && q[m] == t[i];
            if m < path.len() {
                assert(path[m] == q[m]);
            }
        }
    }
    assert forall|i: int, j: int| 0 <= i < j < t.len() - 1 implies #[trigger] t[i] != #[trigger] t[j] by {
        assert(t[i] == c[i + 1] && t[j] == c[j + 1]);
    }
    assert forall|j: int| 0 <= j < t.len() - 1 implies prerequisite_step(specs, #[trigger] chain_node(specs, child, t, j), t[j + 1]) by {
        assert(t[j + 1] == c[j + 2]);
        assert(prerequisite_step(specs, chain_node(specs, start, c, j + 1), c[j + 2]));
        if j > 0 {
            assert(t[j] == c[j + 1]);
        }
    }
}

proof fn lemma_chain_cons(
    specs: Seq<TechnologySpec>,
    start: TechnologySpec,
    path: Seq<Seq<char>>,
    k: int,
    t: Seq<Seq<char>>,
)
    requires
        !path.contains(start.id@),
        0 <= k < specs.len(),
        tech_index(specs, specs[k].id@) == Some(k),
        string_views(start.prerequisites@).contains(specs[k].id@),
        prerequisite_chain(specs, specs[k], path.push(start.id@), t),
    ensures
        prerequisite_chain(specs, start, path, seq![start.id@] + t),
        (seq![start.id@] + t).len() == t.len() + 1,
{
    let x = start.id@;
    let c = seq![x] + t;
    let q = path.push(x);
    assert(q[path.len() as int] == x);
    assert forall|i: int| 0 <= i < c.len() - 1 implies !path.contains(#[trigger] c[i]) by {
        if i > 0 {
            assert(c[i] == t[i - 1]);
            assert(!q.contains(t[i - 1]));
            if path.contains(c[i]) {
                let m = choose|m: int| 0 <= m < path.len() && path[m] == c[i];
                assert(q[m] == path[m]);
            }
        }
    }
    assert forall|i: int, j: int| 0 <= i < j < c.len() - 1 implies #[trigger] c[i] != #[trigger] c[j] by {
        assert(c[j] == t[j - 1]);
        assert(!q.contains(t[j - 1]));
        if i > 0 {
            assert(c[i] == t[i - 1]);
        }
    }
    assert forall|j: int| 0 <= j < c.len() - 1 implies prerequisite_step(specs, #[trigger] chain_node(specs, start, c, j), c[j + 1]) by {
        assert(c[j + 1] == t[j]);
        if j == 0 {
            assert(t[0] == specs[k].id@);
        } else {
            assert(c[j] == t[j - 1]);
            assert(prerequisite_step(specs, chain_node(specs, specs[k], t, j - 1), t[j]));
            if j == 1 {
                assert(t[0] == specs[k].id@);
            }
        }
    }
}

fn depth_below(node: &TechnologySpec, catalog: &TechnologyCatalog, visited: &mut Vec<String>) -> (r: usize)
    requires
        catalog.specs@.len() < usize::MAX,
    ensures
        string_views(final(visited)@) == string_views(old(visited)@),
        r <= depth_measure(catalog.specs@, *node, string_views(old(visited)@)),
        exists|c: Seq<Seq<char>>|
            prerequisite_chain(catalog.specs@, *node, string_views(old(visited)@), c) && c.len() - 1 == r,
        forall|c: Seq<Seq<char>>|
            prerequisite_chain(catalog.specs@, *node, string_views(old(visited)@), c) ==> c.len() - 1 <= r,
    decreases depth_measure(catalog.specs@, *node, string_views(old(visited)@)),
{
    let ghost specs = catalog.specs@;
    let ghost path = string_views(visited@);
    let ghost x = node.id@;
    let ghost single = seq![x];
    assert(prerequisite_chain(specs, *node, path, single));
    if contains_id(visited, node.id.as_str()) {
        assert forall|c: Seq<Seq<char>>| prerequisite_chain(specs, *node, path, c) implies c.len() - 1 <= 0 by {
            if c.len() >= 2 {
                assert(!path.contains(c[0]));
            }
        }
        return 0;
    }
    let ghost before = visited@;
    visited.push(owned(node.id.as_str()));
    let ghost q = path.push(x);
    assert(string_views(visited@) =~= q);
    let mut best: usize = 0;
    let ghost mut witness: Seq<Seq<char>> = single;
    let mut m: usize = 0;
    while m < node.prerequisites.len()
        invariant
            specs == catalog.specs@,
            specs.len() < usize::MAX,
            path == string_views(before),
            path == string_views(old(visited)@),
            x == node.id@,
            !path.contains(x),
            q == path.push(x),
            string_views(visited@) == q,
            m <= node.prerequisites@.len(),
            best <= depth_measure(specs, *node, path),
            prerequisite_chain(specs, *node, path, witness),
            witness.len() - 1 == best,
            forall|c: Seq<Seq<char>>|
                prerequisite_chain(specs, *node, path, c) && c.len() >= 2 && (exists|mm: int|
                    0 <= mm < m && (#[trigger] node.prerequisites@[mm])@ == c[1]) ==> c.len() - 1 <= best,
        decreases node.prerequisites@.len() - m,
    {
        let p = node.prerequisites[m].as_str();
        let ghost pv = node.prerequisites@[m as int]@;
        assert(string_views(node.prerequisites@)[m as int] == pv);
        match catalog.find(p) {
            Some(k) => {
                proof {
                    lemma_tech_index(specs, pv);
                    lemma_measure_step(specs, *node, path, k as int);
                }
                let child = &catalog.specs[k];
                assert(depth_measure(specs, *child, string_views(visited@)) < depth_measure(specs, *node, path));
                let d = depth_below(child, catalog, visited);
                let ghost t = choose|t: Seq<Seq<char>>| prerequisite_chain(specs, *child, q, t) && t.len() - 1 == d;
                if d + 1 > best {
                    proof {
                        lemma_chain_cons(specs, *node, path, k as int, t);
                        witness = seq![x] + t;
                    }
                    best = d + 1;
                }
                assert forall|c: Seq<Seq<char>>|
                    prerequisite_chain(specs, *node, path, c) && c.len() >= 2 && (exists|mm: int|
                        0 <= mm < m + 1 && (#[trigger] node.prerequisites@[mm])@ == c[1]) implies c.len() - 1 <= best by {
                    if c[1] == pv {
                        lemma_chain_tail(specs, *node, path, c);
                    } else {
                        let mm = choose|mm: int| 0 <= mm < m + 1 && (#[trigger] node.prerequisites@[mm])@ == c[1];
                        assert(mm < m);
                    }
                }
            },
            None => {
                assert forall|c: Seq<Seq<char>>|
                    prerequisite_chain(specs, *node, path, c) && c.len() >= 2 && (exists|mm: int|
                        0 <= mm < m + 1 && (#[trigger] node.prerequisites@[mm])@ == c[1]) implies c.len() - 1 <= best by {
                    if c[1] == pv {
                        assert(prerequisite_step(specs, chain_node(specs, *node, c, 0), c[1]));
                    } else {
                        let mm = choose|mm: int| 0 <= mm < m + 1 && (#[trigger] node.prerequisites@[mm])@ == c[1];
                        assert(mm < m);
                    }
                }
            },
        }
        m = m + 1;
    }
    let ghost pre = visited@;
    visited.pop();
    assert(string_views(pre.drop_last()) =~= string_views(pre).drop_last());
    assert(q.drop_last() =~= path);
    assert(string_views(visited@) =~= path);
    assert forall|c: Seq<Seq<char>>| prerequisite_chain(specs, *node, path, c) implies c.len() - 1 <= best by {
        if c.len() >= 2 {
            assert(prerequisite_step(specs, chain_node(specs, *node, c, 0), c[1]));
            let mm = choose|mm: int| 0 <= mm < node.prerequisites@.len() && string_views(node.prerequisites@)[mm] == c[1];
            assert(node.prerequisites@[mm]@ == c[1]);
        }
    }
    best
}

/// How deep `spec` sits in the tree: the length of the longest chain of
/// prerequisites below it, each one found in the catalog, that repeats no
/// technology except where its last step closes a cycle.
pub fn technology_depth(spec: &TechnologySpec, catalog: &TechnologyCatalog) -> (d: usize)
    requires
        catalog.specs@.len() < usize::MAX,
    ensures
        exists|c: Seq<Seq<char>>| prerequisite_chain(catalog.specs@, *spec, Seq::empty(), c) && c.len() - 1 == d,
        forall|c: Seq<Seq<char>>| prerequisite_chain(catalog.specs@, *spec, Seq::empty(), c) ==> c.len() - 1 <= d,
{
    let mut visited: Vec<String> = Vec::new();
    assert(string_views(visited@) =~= Seq::<Seq<char>>::empty());
    depth_below(spec, catalog, &mut visited)
}

/// The research of faction `fid` in `ts`: the first record for it.
pub open spec fn technology_state_of(ts: Seq<(String, FactionTechnologyState)>, fid: Seq<char>) -> Option<FactionTechnologyState>
    decreases ts.len(),
{
    if ts.len() == 0 {
        None
    } else if ts[0].0@ == fid {
        Some(ts[0].1)
    } else {
        technology_state_of(ts.drop_first(), fid)
    }
}

/// The research of faction `faction_id`, if it has any.
pub fn find_technology_state<'a>(ts: &'a Vec<(String, FactionTechnologyState)>, faction_id: &str) -> (r: Option<&'a FactionTechnologyState>)
    ensures
        match r {
            Some(s) => technology_state_of(ts@, faction_id@) == Some(*s),
            None => technology_state_of(ts@, faction_id@) is None,
        },
{
    let mut i: usize = 0;
    assert(ts@.skip(0) =~= ts@);
    while i < ts.len()
        invariant
            i <= ts.len(),
            technology_state_of(ts@, faction_id@) == technology_state_of(ts@.skip(i as int), faction_id@),
        decreases ts.len() - i,
    {
        assert(ts@.skip(i as int).drop_first() =~= ts@.skip(i as int + 1));
        if str_eq(ts[i].0.as_str(), faction_id) {
            return Some(&ts[i].1);
        }
        i = i + 1;
    }
    None
}

} // verus!
