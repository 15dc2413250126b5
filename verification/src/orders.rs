//! What a faction has under way: the commands queued for the turn, the
//! armies on the march and the officers being recruited, and how the
//! faction detail window lists them.

use vstd::prelude::*;
use crate::faction_detail::{PersonLabel, officer_name, person_label_of};
use crate::faction_overview::{city_name, faction_name};
use crate::game::{GameState, TroopPool, city_index, faction_index, troop_total};
use crate::text::str_eq;

verus! {

/// What a development command improves.
#[derive(Clone, Copy, Debug, PartialEq, Eq, Structural)]
pub enum DevelopmentFocus {
    Agriculture,
    Commerce,
    Defense,
    Order,
}

/// The facilities a city can build.
#[derive(Clone, Copy, Debug, PartialEq, Eq, Structural)]
pub enum FacilityKind {
    Farmland,
    Irrigation,
    Market,
    TradeDepot,
    Workshop,
    Quarry,
    Barracks,
    DrillGround,
    Walls,
    Administration,
    Granary,
    RelayStation,
    Medical,
}

/// The arms of an army.
#[derive(Clone, Copy, Debug, PartialEq, Eq, Structural)]
pub enum TroopKind {
    Infantry,
    Cavalry,
    Archers,
}

/// The proposals a diplomacy command can carry.
#[derive(Clone, Copy, Debug, PartialEq, Eq, Structural)]
pub enum DiplomacyProposal {
    ImproveRelations,
    Truce,
    DeclareWar,
}

/// Soldiers of one arm given to an expedition.
#[derive(Clone, Copy, Debug, PartialEq, Eq, Structural)]
pub struct ExpeditionAssignment {
    pub troop_kind: TroopKind,
    pub troops: u32,
}

/// What a command orders.
#[derive(Clone, Debug)]
pub enum CommandKind {
    Develop { focus: DevelopmentFocus },
    UpgradeCityCore,
    BuildFacility { kind: FacilityKind },
    Recruit { kind: TroopKind, amount: u32 },
    Train,
    AppointGovernor { target_officer_id: String },
    Transfer { target_city_id: String, troops: TroopPool },
    Expedition { target_city_id: String, assignments: Vec<ExpeditionAssignment> },
    Diplomacy { target_faction_id: String, proposal: DiplomacyProposal },
}

/// A command queued for the end of the turn.
#[derive(Clone, Debug)]
pub struct Command {
    pub issuer_faction_id: String,
    pub city_id: String,
    pub officer_id: Option<String>,
    pub kind: CommandKind,
}

/// Why an army marches.
#[derive(Clone, Copy, Debug, PartialEq, Eq, Structural)]
pub enum ArmyMovementKind {
    Transfer,
    Expedition,
}

/// An army on the march.
#[derive(Clone, Debug)]
pub struct ArmyMovement {
    pub kind: ArmyMovementKind,
    pub issuer_faction_id: String,
    pub source_city_id: String,
    pub target_city_id: String,
    pub commander_id: String,
    pub officer_ids: Vec<String>,
    pub troops: TroopPool,
    pub food_supply: u32,
    pub wounded_troops: TroopPool,
    pub assignments: Vec<ExpeditionAssignment>,
    pub siege_started_turn: Option<u32>,
    pub training: u8,
    pub distance_li: u32,
    pub departure_turn: u32,
    pub arrival_turn: u32,
}

/// An officer of another faction being won over.
#[derive(Clone, Debug)]
pub struct OfficerRecruitmentTask {
    pub id: String,
    pub issuer_faction_id: String,
    pub source_city_id: String,
    pub recruiter_officer_id: String,
    pub target_officer_id: String,
    pub progress: u32,
    pub attempt_months: u32,
    pub started_turn: u32,
}

/// The name of city `id` of `game`, or the identifier itself.
pub open spec fn city_name_or_id(game: GameState, id: Seq<char>) -> Seq<char> {
    match city_index(game.cities@, id) {
        Some(i) => game.cities@[i].name@,
        None => id,
    }
}

/// The name of faction `id` of `game`, or the identifier itself.
pub open spec fn faction_name_or_id(game: GameState, id: Seq<char>) -> Seq<char> {
    match faction_index(game.factions@, id) {
        Some(i) => game.factions@[i].name@,
        None => id,
    }
}

/// The soldiers of arm `kind` that assignments `a` give.
pub open spec fn assigned_troops(a: Seq<ExpeditionAssignment>, kind: TroopKind) -> int
    decreases a.len(),
{
    if a.len() == 0 {
        0
    } else {
        assigned_troops(a.drop_last(), kind) + if a.last().troop_kind == kind { a.last().troops as int } else { 0 }
    }
}

/// Each arm's soldiers in assignments `a` fit a pool.
pub open spec fn assignments_fit(a: Seq<ExpeditionAssignment>) -> bool {
    &&& assigned_troops(a, TroopKind::Infantry) <= u32::MAX
    &&& assigned_troops(a, TroopKind::Cavalry) <= u32::MAX
    &&& assigned_troops(a, TroopKind::Archers) <= u32::MAX
}

/// The pool that assignments `a` make up, arm by arm.
pub open spec fn assignment_pool(a: Seq<ExpeditionAssignment>) -> TroopPool {
    TroopPool {
        infantry: assigned_troops(a, TroopKind::Infantry) as u32,
        cavalry: assigned_troops(a, TroopKind::Cavalry) as u32,
        archers: assigned_troops(a, TroopKind::Archers) as u32,
    }
}

proof fn lemma_assigned_prefix(a: Seq<ExpeditionAssignment>, i: int, kind: TroopKind)
    requires
        0 <= i <= a.len(),
    ensures
        0 <= assigned_troops(a.take(i), kind) <= assigned_troops(a, kind),
    decreases a.len() - i,
{
    if i < a.len() {
        lemma_assigned_prefix(a, i + 1, kind);
        assert(a.take(i + 1).drop_last() =~= a.take(i));
    } else {
        assert(a.take(i) =~= a);
    }
    lemma_assigned_nonneg(a.take(i), kind);
}

proof fn lemma_assigned_nonneg(a: Seq<ExpeditionAssignment>, kind: TroopKind)
    ensures
        assigned_troops(a, kind) >= 0,
    decreases a.len(),
{
    if a.len() > 0 {
        lemma_assigned_nonneg(a.drop_last(), kind);
    }
}

/// The soldiers of an expedition, gathered arm by arm from its assignments.
pub fn expedition_troops(assignments: &Vec<ExpeditionAssignment>) -> (p: TroopPool)
    requires
        assignments_fit(assignments@),
    ensures
        p == assignment_pool(assignments@),
{
    let ghost a = assignments@;
    let mut p = TroopPool { infantry: 0, cavalry: 0, archers: 0 };
    let mut i: usize = 0;
    while i < assignments.len()
        invariant
            a == assignments@,
            assignments_fit(a),
            i <= a.len(),
            p.infantry == assigned_troops(a.take(i as int), TroopKind::Infantry),
            p.cavalry == assigned_troops(a.take(i as int), TroopKind::Cavalry),
            p.archers == assigned_troops(a.take(i as int), TroopKind::Archers),
        decreases a.len() - i,
    {
        proof {
            assert(a.take(i as int + 1).drop_last() =~= a.take(i as int));
            assert(a.take(i as int + 1).last() == a[i as int]);
            lemma_assigned_prefix(a, i as int + 1, TroopKind::Infantry);
            lemma_assigned_prefix(a, i as int + 1, TroopKind::Cavalry);
            lemma_assigned_prefix(a, i as int + 1, TroopKind::Archers);
        }
        let x = assignments[i];
        match x.troop_kind {
            TroopKind::Infantry => p.infantry = p.infantry + x.troops,
            TroopKind::Cavalry => p.cavalry = p.cavalry + x.troops,
            TroopKind::Archers => p.archers = p.archers + x.troops,
        }
        i = i + 1;
    }
    assert(a.take(a.len() as int) =~= a);
    p
}

/// How the detail window sums up a queued command.
#[derive(Debug)]
pub enum CommandSummary {
    Develop { focus: DevelopmentFocus },
    UpgradeCityCore,
    BuildFacility { kind: FacilityKind },
    Recruit { kind: TroopKind, amount: u32 },
    Train,
    /// Who is appointed, and in which city.
    AppointGovernor { officer: PersonLabel, city: String },
    /// The soldiers sent, and where.
    Transfer { troops: TroopPool, target_city: String },
    /// The soldiers marching, and against which city.
    Expedition { troops: TroopPool, target_city: String },
    /// The proposal, and to whom.
    Diplomacy { proposal: DiplomacyProposal, target_faction: String },
}

/// `s` sums up command `c` of `game`, naming cities, factions and officers
/// as the game names them.
pub open spec fn summary_of(s: CommandSummary, game: GameState, c: Command) -> bool {
    match c.kind {
        CommandKind::Develop { focus } => s matches CommandSummary::Develop { focus: f } && f == focus,
        CommandKind::UpgradeCityCore => s is UpgradeCityCore,
        CommandKind::BuildFacility { kind } => s matches CommandSummary::BuildFacility { kind: k } && k == kind,
        CommandKind::Recruit { kind, amount } => s matches CommandSummary::Recruit { kind: k, amount: n } && k == kind
            && n == amount,
        CommandKind::Train => s is Train,
        CommandKind::AppointGovernor { target_officer_id } => s matches CommandSummary::AppointGovernor { officer, city }
            && person_label_of(officer, game, target_officer_id@) && city@ == city_name_or_id(game, c.city_id@),
        CommandKind::Transfer { target_city_id, troops } => s matches CommandSummary::Transfer { troops: t, target_city }
            && t == troops && target_city@ == city_name_or_id(game, target_city_id@),
        CommandKind::Expedition { target_city_id, assignments } => s matches CommandSummary::Expedition {
            troops: t,
            target_city,
        } && t == assignment_pool(assignments@) && target_city@ == city_name_or_id(game, target_city_id@),
        CommandKind::Diplomacy { target_faction_id, proposal } => s matches CommandSummary::Diplomacy {
            proposal: p,
            target_faction,
        } && p == proposal && target_faction@ == faction_name_or_id(game, target_faction_id@),
    }
}

/// An expedition's assignments fit a pool, for a command that has them.
pub open spec fn command_fits(c: Command) -> bool {
    match c.kind {
        CommandKind::Expedition { assignments, .. } => assignments_fit(assignments@),
        _ => true,
    }
}

/// The summary of `command`.
pub fn command_summary(game: &GameState, command: &Command) -> (s: CommandSummary)
    requires
        command_fits(*command),
    ensures
        summary_of(s, *game, *command),
{
    match &command.kind {
        CommandKind::Develop { focus } => CommandSummary::Develop { focus: *focus },
        CommandKind::UpgradeCityCore => CommandSummary::UpgradeCityCore,
        CommandKind::BuildFacility { kind } => CommandSummary::BuildFacility { kind: *kind },
        CommandKind::Recruit { kind, amount } => CommandSummary::Recruit { kind: *kind, amount: *amount },
        CommandKind::Train => CommandSummary::Train,
        CommandKind::AppointGovernor { target_officer_id } => CommandSummary::AppointGovernor {
            officer: officer_name(game, target_officer_id.as_str()),
            city: city_name(game, command.city_id.as_str()),
        },
        CommandKind::Transfer { target_city_id, troops } => CommandSummary::Transfer {
            troops: *troops,
            target_city: city_name(game, target_city_id.as_str()),
        },
        CommandKind::Expedition { target_city_id, assignments } => CommandSummary::Expedition {
            troops: expedition_troops(assignments),
            target_city: city_name(game, target_city_id.as_str()),
        },
        CommandKind::Diplomacy { target_faction_id, proposal } => CommandSummary::Diplomacy {
            proposal: *proposal,
            target_faction: faction_name(game, target_faction_id.as_str()),
        },
    }
}

/// A line of the pending-command list: the city that acts, and the summary.
#[derive(Debug)]
pub struct PendingCommandLine {
    pub city: String,
    pub summary: CommandSummary,
}

/// The commands of `cs` that faction `fid` issued, in queue order.
pub open spec fn commands_of(cs: Seq<Command>, fid: Seq<char>) -> Seq<Command> {
    cs.filter(|c: Command| c.issuer_faction_id@ == fid)
}

/// Every command of `cs` fits.
pub open spec fn commands_fit(cs: Seq<Command>) -> bool {
    forall|i: int| 0 <= i < cs.len() ==> command_fits(#[trigger] cs[i])
}

/// `lines` list the commands of `cs` that faction `fid` issued, in queue
/// order, each with the city that acts.
pub open spec fn pending_lines_of(lines: Seq<PendingCommandLine>, game: GameState, cs: Seq<Command>, fid: Seq<char>) -> bool {
    &&& lines.len() == commands_of(cs, fid).len()
    &&& forall|k: int| 0 <= k < lines.len() ==> {
        let c = commands_of(cs, fid)[k];
        &&& (#[trigger] lines[k]).city@ == city_name_or_id(game, c.city_id@)
        &&& summary_of(lines[k].summary, game, c)
    }
}

/// The pending commands of faction `faction_id`, in queue order.
pub fn faction_pending_commands(game: &GameState, commands: &Vec<Command>, faction_id: &str) -> (lines: Vec<PendingCommandLine>)
    requires
        commands_fit(commands@),
    ensures
        pending_lines_of(lines@, *game, commands@, faction_id@),
{
    let ghost cs = commands@;
    let ghost pass = |c: Command| c.issuer_faction_id@ == faction_id@;
    let mut lines: Vec<PendingCommandLine> = Vec::new();
    let mut i: usize = 0;
    while i < commands.len()
        invariant
            cs == commands@,
            commands_fit(cs),
            pass == (|c: Command| c.issuer_faction_id@ == faction_id@),
            i <= cs.len(),
            lines@.len() == cs.take(i as int).filter(pass).len(),
            forall|k: int| 0 <= k < lines@.len() ==> {
                let c = cs.take(i as int).filter(pass)[k];
                &&& (#[trigger] lines@[k]).city@ == city_name_or_id(*game, c.city_id@)
                &&& summary_of(lines@[k].summary, *game, c)
            },
        decreases cs.len() - i,
    {
        let ghost pre = cs.take(i as int);
        assert(cs.take(i as int + 1).drop_last() =~= pre);
        assert(cs.take(i as int + 1).last() == cs[i as int]);
        assert(cs.take(i as int + 1).filter(pass) == if pass(cs[i as int]) {
            pre.filter(pass).push(cs[i as int])
        } else {
            pre.filter(pass)
        }) by {
            reveal(Seq::filter);
        }
        let command = &commands[i];
        let ghost before = lines@;
        if str_eq(command.issuer_faction_id.as_str(), faction_id) {
            assert(command_fits(cs[i as int]));
            let line = PendingCommandLine {
                city: city_name(game, command.city_id.as_str()),
                summary: command_summary(game, command),
            };
            lines.push(line);
            assert forall|k: int| 0 <= k < lines@.len() implies {
                let c = cs.take(i as int + 1).filter(pass)[k];
                &&& (#[trigger] lines@[k]).city@ == city_name_or_id(*game, c.city_id@)
                &&& summary_of(lines@[k].summary, *game, c)
            } by {
                if k < before.len() {
                    assert(lines@[k] == before[k]);
                }
            }
        }
        i = i + 1;
    }
    assert(cs.take(cs.len() as int) =~= cs);
    lines
}

/// A line of the army list.
#[derive(Debug)]
pub struct ArmyMovementLine {
    pub kind: ArmyMovementKind,
    pub source: String,
    pub target: String,
    pub commander: PersonLabel,
    pub troops: u32,
    pub arrival_turn: u32,
}

/// Line `l` shows army `m` of `game`.
pub open spec fn movement_line_of(l: ArmyMovementLine, game: GameState, m: ArmyMovement) -> bool {
    &&& l.kind == m.kind
    &&& l.source@ == city_name_or_id(game, m.source_city_id@)
    &&& l.target@ == city_name_or_id(game, m.target_city_id@)
    &&& person_label_of(l.commander, game, m.commander_id@)
    &&& l.troops == troop_total(m.troops)
    &&& l.arrival_turn == m.arrival_turn
}

/// The armies of `ms` that faction `fid` sent, in march order.
pub open spec fn movements_of(ms: Seq<ArmyMovement>, fid: Seq<char>) -> Seq<ArmyMovement> {
    ms.filter(|m: ArmyMovement| m.issuer_faction_id@ == fid)
}

/// `lines` list the armies of `ms` that faction `fid` sent, in march order.
pub open spec fn movement_lines_of(lines: Seq<ArmyMovementLine>, game: GameState, ms: Seq<ArmyMovement>, fid: Seq<char>) -> bool {
    &&& lines.len() == movements_of(ms, fid).len()
    &&& forall|k: int| 0 <= k < lines.len() ==> movement_line_of(#[trigger] lines[k], game, movements_of(ms, fid)[k])
}

/// Every army of `ms` has a head count that fits.
pub open spec fn movements_fit(ms: Seq<ArmyMovement>) -> bool {
    forall|i: int| 0 <= i < ms.len() ==> troop_total(#[trigger] ms[i].troops) <= u32::MAX
}

/// The armies that faction `faction_id` has on the march.
pub fn faction_army_movements(game: &GameState, movements: &Vec<ArmyMovement>, faction_id: &str) -> (lines: Vec<ArmyMovementLine>)
    requires
        movements_fit(movements@),
    ensures
        movement_lines_of(lines@, *game, movements@, faction_id@),
{
    let ghost ms = movements@;
    let ghost pass = |m: ArmyMovement| m.issuer_faction_id@ == faction_id@;
    let mut lines: Vec<ArmyMovementLine> = Vec::new();
    let mut i: usize = 0;
    while i < movements.len()
        invariant
            ms == movements@,
            forall|j: int| 0 <= j < ms.len() ==> troop_total(#[trigger] ms[j].troops) <= u32::MAX,
            pass == (|m: ArmyMovement| m.issuer_faction_id@ == faction_id@),
            i <= ms.len(),
            lines@.len() == ms.take(i as int).filter(pass).len(),
            forall|k: int| 0 <= k < lines@.len() ==> movement_line_of(#[trigger] lines@[k], *game, ms.take(i as int).filter(pass)[k]),
        decreases ms.len() - i,
    {
        let ghost pre = ms.take(i as int);
        assert(ms.take(i as int + 1).drop_last() =~= pre);
        assert(ms.take(i as int + 1).last() == ms[i as int]);
        assert(ms.take(i as int + 1).filter(pass) == if pass(ms[i as int]) {
            pre.filter(pass).push(ms[i as int])
        } else {
            pre.filter(pass)
        }) by {
            reveal(Seq::filter);
        }
        let m = &movements[i];
        let ghost before = lines@;
        if str_eq(m.issuer_faction_id.as_str(), faction_id) {
            assert(troop_total(ms[i as int].troops) <= u32::MAX);
            let line = ArmyMovementLine {
                kind: m.kind,
                source: city_name(game, m.source_city_id.as_str()),
                target: city_name(game, m.target_city_id.as_str()),
                commander: officer_name(game, m.commander_id.as_str()),
                troops: m.troops.total(),
                arrival_turn: m.arrival_turn,
            };
            lines.push(line);
            assert forall|k: int| 0 <= k < lines@.len() implies movement_line_of(
                #[trigger] lines@[k],
                *game,
                ms.take(i as int + 1).filter(pass)[k],
            ) by {
                if k < before.len() {
                    assert(lines@[k] == before[k]);
                }
            }
        }
        i = i + 1;
    }
    assert(ms.take(ms.len() as int) =~= ms);
    lines
}

/// A line of the recruitment list.
#[derive(Debug)]
pub struct RecruitmentLine {
    pub city: String,
    pub recruiter: PersonLabel,
    pub target: PersonLabel,
    pub progress: u32,
}

/// Line `l` shows recruitment `t` of `game`.
pub open spec fn recruitment_line_of(l: RecruitmentLine, game: GameState, t: OfficerRecruitmentTask) -> bool {
    &&& l.city@ == city_name_or_id(game, t.source_city_id@)
    &&& person_label_of(l.recruiter, game, t.recruiter_officer_id@)
    &&& person_label_of(l.target, game, t.target_officer_id@)
    &&& l.progress == t.progress
}

/// The recruitments of `ts` that faction `fid` started, in order.
pub open spec fn recruitments_of(ts: Seq<OfficerRecruitmentTask>, fid: Seq<char>) -> Seq<OfficerRecruitmentTask> {
    ts.filter(|t: OfficerRecruitmentTask| t.issuer_faction_id@ == fid)
}

/// `lines` list the recruitments of `ts` that faction `fid` started, in order.
pub open spec fn recruitment_lines_of(lines: Seq<RecruitmentLine>, game: GameState, ts: Seq<OfficerRecruitmentTask>, fid: Seq<char>) -> bool {
    &&& lines.len() == recruitments_of(ts, fid).len()
    &&& forall|k: int| 0 <= k < lines.len() ==> recruitment_line_of(#[trigger] lines[k], game, recruitments_of(ts, fid)[k])
}

/// The officers that faction `faction_id` is trying to win over.
pub fn faction_recruitments(game: &GameState, tasks: &Vec<OfficerRecruitmentTask>, faction_id: &str) -> (lines: Vec<RecruitmentLine>)
    ensures
        recruitment_lines_of(lines@, *game, tasks@, faction_id@),
{
    let ghost ts = tasks@;
    let ghost pass = |t: OfficerRecruitmentTask| t.issuer_faction_id@ == faction_id@;
    let mut lines: Vec<RecruitmentLine> = Vec::new();
    let mut i: usize = 0;
    while i < tasks.len()
        invariant
            ts == tasks@,
            pass == (|t: OfficerRecruitmentTask| t.issuer_faction_id@ == faction_id@),
            i <= ts.len(),
            lines@.len() == ts.take(i as int).filter(pass).len(),
            forall|k: int| 0 <= k < lines@.len() ==> recruitment_line_of(#[trigger] lines@[k], *game, ts.take(i as int).filter(pass)[k]),
        decreases ts.len() - i,
    {
        let ghost pre = ts.take(i as int);
        assert(ts.take(i as int + 1).drop_last() =~= pre);
        assert(ts.take(i as int + 1).last() == ts[i as int]);
        assert(ts.take(i as int + 1).filter(pass) == if pass(ts[i as int]) {
            pre.filter(pass).push(ts[i as int])
        } else {
            pre.filter(pass)
        }) by {
            reveal(Seq::filter);
        }
        let t = &tasks[i];
        let ghost before = lines@;
        if str_eq(t.issuer_faction_id.as_str(), faction_id) {
            let line = RecruitmentLine {
                city: city_name(game, t.source_city_id.as_str()),
                recruiter: officer_name(game, t.recruiter_officer_id.as_str()),
                target: officer_name(game, t.target_officer_id.as_str()),
                progress: t.progress,
            };
            lines.push(line);
            assert forall|k: int| 0 <= k < lines@.len() implies recruitment_line_of(
                #[trigger] lines@[k],
                *game,
                ts.take(i as int + 1).filter(pass)[k],
            ) by {
                if k < before.len() {
                    assert(lines@[k] == before[k]);
                }
            }
        }
        i = i + 1;
    }
    assert(ts.take(ts.len() as int) =~= ts);
    lines
}

} // verus!
