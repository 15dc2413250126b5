//! The faction overview table: one row per living faction with its cities,
//! officers and resources, sorted by a chosen column.

use vstd::prelude::*;
use vstd::relations::sorted_by;
use crate::game::{
    City, Faction, GameState, Officer, OfficerStatus, faction_index, city_index, ids_distinct, governs_city, holds_city,
    post_index, troop_total,
};
use crate::text::{lemma_seq_lt_irreflexive, lemma_seq_lt_total, lemma_seq_lt_transitive, owned, seq_lt, str_eq, str_less};
use crate::table_order::rearranged_by;

verus! {

/// The columns by which the overview can be sorted.
#[derive(Clone, Copy, Debug, PartialEq, Eq, Structural)]
pub enum FactionOverviewSortColumn {
    Faction,
    Cities,
    Officers,
    Gold,
    Food,
    Materials,
    Troops,
    Population,
    Wounded,
}

/// The column the overview is sorted by, and in which direction.
#[derive(Clone, Copy, Debug, PartialEq, Eq, Structural)]
pub struct FactionOverviewSort {
    pub column: FactionOverviewSortColumn,
    pub descending: bool,
}

/// Whether a column is sorted from the largest value first when it is chosen.
pub open spec fn column_starts_descending(column: FactionOverviewSortColumn) -> bool {
    match column {
        FactionOverviewSortColumn::Faction => false,
        FactionOverviewSortColumn::Cities => false,
        FactionOverviewSortColumn::Officers => false,
        _ => true,
    }
}

impl Default for FactionOverviewSort {
    fn default() -> (s: Self)
        ensures
            s.column == FactionOverviewSortColumn::Faction,
            !s.descending,
    {
        FactionOverviewSort { column: FactionOverviewSortColumn::Faction, descending: false }
    }
}

impl FactionOverviewSort {
    /// A click on a column header: the same column flips its direction, another
    /// column becomes the sort column in its starting direction.
    pub fn activate(&mut self, column: FactionOverviewSortColumn)
        ensures
            final(self).column == column,
            final(self).descending == if old(self).column == column {
                !old(self).descending
            } else {
                column_starts_descending(column)
            },
    {
        if self.column == column {
            self.descending = !self.descending;
        } else {
            self.column = column;
            self.descending = match column {
                FactionOverviewSortColumn::Faction => false,
                FactionOverviewSortColumn::Cities => false,
                FactionOverviewSortColumn::Officers => false,
                _ => true,
            };
        }
    }
}

/// One line of the overview table.
#[derive(Clone, Debug)]
pub struct FactionOverviewRow {
    pub faction_id: String,
    pub faction_name: String,
    pub city_count: usize,
    pub active_officer_count: usize,
    pub gold: i64,
    pub food: i64,
    pub materials: i64,
    pub troops: u64,
    pub population: u64,
    pub wounded: u64,
}

/// The order of rows by faction name, then identifier.
pub open spec fn name_id_less(a: FactionOverviewRow, b: FactionOverviewRow) -> bool {
    ||| seq_lt(a.faction_name@, b.faction_name@)
    ||| (a.faction_name@ == b.faction_name@ && seq_lt(a.faction_id@, b.faction_id@))
}

/// Row `a` has a smaller value than row `b` in `column`.
pub open spec fn primary_less(a: FactionOverviewRow, b: FactionOverviewRow, column: FactionOverviewSortColumn) -> bool {
    match column {
        FactionOverviewSortColumn::Faction => name_id_less(a, b),
        FactionOverviewSortColumn::Cities => a.city_count < b.city_count,
        FactionOverviewSortColumn::Officers => a.active_officer_count < b.active_officer_count,
        FactionOverviewSortColumn::Gold => a.gold < b.gold,
        FactionOverviewSortColumn::Food => a.food < b.food,
        FactionOverviewSortColumn::Materials => a.materials < b.materials,
        FactionOverviewSortColumn::Troops => a.troops < b.troops,
        FactionOverviewSortColumn::Population => a.population < b.population,
        FactionOverviewSortColumn::Wounded => a.wounded < b.wounded,
    }
}

/// Rows `a` and `b` have the same value in `column`.
pub open spec fn primary_equal(a: FactionOverviewRow, b: FactionOverviewRow, column: FactionOverviewSortColumn) -> bool {
    match column {
        FactionOverviewSortColumn::Faction => a.faction_name@ == b.faction_name@ && a.faction_id@ == b.faction_id@,
        FactionOverviewSortColumn::Cities => a.city_count == b.city_count,
        FactionOverviewSortColumn::Officers => a.active_officer_count == b.active_officer_count,
        FactionOverviewSortColumn::Gold => a.gold == b.gold,
        FactionOverviewSortColumn::Food => a.food == b.food,
        FactionOverviewSortColumn::Materials => a.materials == b.materials,
        FactionOverviewSortColumn::Troops => a.troops == b.troops,
        FactionOverviewSortColumn::Population => a.population == b.population,
        FactionOverviewSortColumn::Wounded => a.wounded == b.wounded,
    }
}

/// Row `a` is shown above row `b`: it comes first in the sort column, in the
/// chosen direction, or ties there and comes first by name and identifier.
pub open spec fn row_before(a: FactionOverviewRow, b: FactionOverviewRow, sort: FactionOverviewSort) -> bool {
    ||| (if sort.descending { primary_less(b, a, sort.column) } else { primary_less(a, b, sort.column) })
    ||| (primary_equal(a, b, sort.column) && name_id_less(a, b))
}

/// Each column orders rows by its own field: of two rows that differ in the
/// sort column's value, the one with the larger value is shown first when
/// descending and the one with the smaller value when ascending; under the
/// faction column, rows with different names go by name.
pub proof fn lemma_sort_column_orders_by_its_field(a: FactionOverviewRow, b: FactionOverviewRow, sort: FactionOverviewSort)
    ensures
        sort.column == FactionOverviewSortColumn::Cities && a.city_count != b.city_count ==> (row_before(a, b, sort) <==> if sort.descending {
            a.city_count > b.city_count
        } else {
            a.city_count < b.city_count
        }),
        sort.column == FactionOverviewSortColumn::Officers && a.active_officer_count != b.active_officer_count ==> (row_before(a, b, sort) <==> if sort.descending {
            a.active_officer_count > b.active_officer_count
        } else {
            a.active_officer_count < b.active_officer_count
        }),
        sort.column == FactionOverviewSortColumn::Gold && a.gold != b.gold ==> (row_before(a, b, sort) <==> if sort.descending {
            a.gold > b.gold
        } else {
            a.gold < b.gold
        }),
        sort.column == FactionOverviewSortColumn::Food && a.food != b.food ==> (row_before(a, b, sort) <==> if sort.descending {
            a.food > b.food
        } else {
            a.food < b.food
        }),
        sort.column == FactionOverviewSortColumn::Materials && a.materials != b.materials ==> (row_before(a, b, sort) <==> if sort.descending {
            a.materials > b.materials
        } else {
            a.materials < b.materials
        }),
        sort.column == FactionOverviewSortColumn::Troops && a.troops != b.troops ==> (row_before(a, b, sort) <==> if sort.descending {
            a.troops > b.troops
        } else {
            a.troops < b.troops
        }),
        sort.column == FactionOverviewSortColumn::Population && a.population != b.population ==> (row_before(a, b, sort) <==> if sort.descending {
            a.population > b.population
        } else {
            a.population < b.population
        }),
        sort.column == FactionOverviewSortColumn::Wounded && a.wounded != b.wounded ==> (row_before(a, b, sort) <==> if sort.descending {
            a.wounded > b.wounded
        } else {
            a.wounded < b.wounded
        }),
        sort.column == FactionOverviewSortColumn::Faction && a.faction_name@ != b.faction_name@ ==> (row_before(a, b, sort) <==> if sort.descending {
            seq_lt(b.faction_name@, a.faction_name@)
        } else {
            seq_lt(a.faction_name@, b.faction_name@)
        }),
{
    lemma_seq_lt_total(a.faction_name@, b.faction_name@);
    if seq_lt(a.faction_name@, b.faction_name@) && seq_lt(b.faction_name@, a.faction_name@) {
        lemma_seq_lt_transitive(a.faction_name@, b.faction_name@, a.faction_name@);
        lemma_seq_lt_irreflexive(a.faction_name@);
    }
}

/// Rows that tie in a numeric sort column go by faction name, ascending,
/// whichever the direction.
pub proof fn lemma_ties_in_column_go_by_name(a: FactionOverviewRow, b: FactionOverviewRow, sort: FactionOverviewSort)
    requires
        a.faction_name@ != b.faction_name@,
        sort.column == FactionOverviewSortColumn::Cities && a.city_count == b.city_count
            || sort.column == FactionOverviewSortColumn::Officers && a.active_officer_count == b.active_officer_count
            || sort.column == FactionOverviewSortColumn::Gold && a.gold == b.gold
            || sort.column == FactionOverviewSortColumn::Food && a.food == b.food
            || sort.column == FactionOverviewSortColumn::Materials && a.materials == b.materials
            || sort.column == FactionOverviewSortColumn::Troops && a.troops == b.troops
            || sort.column == FactionOverviewSortColumn::Population && a.population == b.population
            || sort.column == FactionOverviewSortColumn::Wounded && a.wounded == b.wounded,
    ensures
        row_before(a, b, sort) <==> seq_lt(a.faction_name@, b.faction_name@),
{
}

/// In rows sorted for display, two rows that differ in the sort column's
/// value come with the larger value first when descending and the smaller
/// first when ascending.
pub proof fn lemma_sorted_rows_follow_the_column(rows: Seq<FactionOverviewRow>, sort: FactionOverviewSort, i: int, j: int)
    requires
        sorted_by(rows, row_in_order(sort)),
        0 <= i < j < rows.len(),
    ensures
        sort.column == FactionOverviewSortColumn::Cities && rows[i].city_count != rows[j].city_count
            ==> if sort.descending { rows[i].city_count > rows[j].city_count } else { rows[i].city_count < rows[j].city_count },
        sort.column == FactionOverviewSortColumn::Officers && rows[i].active_officer_count != rows[j].active_officer_count
            ==> if sort.descending { rows[i].active_officer_count > rows[j].active_officer_count } else { rows[i].active_officer_count < rows[j].active_officer_count },
        sort.column == FactionOverviewSortColumn::Gold && rows[i].gold != rows[j].gold
            ==> if sort.descending { rows[i].gold > rows[j].gold } else { rows[i].gold < rows[j].gold },
        sort.column == FactionOverviewSortColumn::Food && rows[i].food != rows[j].food
            ==> if sort.descending { rows[i].food > rows[j].food } else { rows[i].food < rows[j].food },
        sort.column == FactionOverviewSortColumn::Materials && rows[i].materials != rows[j].materials
            ==> if sort.descending { rows[i].materials > rows[j].materials } else { rows[i].materials < rows[j].materials },
        sort.column == FactionOverviewSortColumn::Troops && rows[i].troops != rows[j].troops
            ==> if sort.descending { rows[i].troops > rows[j].troops } else { rows[i].troops < rows[j].troops },
        sort.column == FactionOverviewSortColumn::Population && rows[i].population != rows[j].population
            ==> if sort.descending { rows[i].population > rows[j].population } else { rows[i].population < rows[j].population },
        sort.column == FactionOverviewSortColumn::Wounded && rows[i].wounded != rows[j].wounded
            ==> if sort.descending { rows[i].wounded > rows[j].wounded } else { rows[i].wounded < rows[j].wounded },
{
    assert(row_in_order(sort)(rows[i], rows[j]));
    lemma_sort_column_orders_by_its_field(rows[j], rows[i], sort);
}

/// Rows `a` and `b` are equal in every key of the sort by `column`: the
/// value in that column, the faction name and the faction identifier.
pub open spec fn rows_tied(a: FactionOverviewRow, b: FactionOverviewRow, column: FactionOverviewSortColumn) -> bool {
    &&& primary_equal(a, b, column)
    &&& a.faction_name@ == b.faction_name@
    &&& a.faction_id@ == b.faction_id@
}

/// `out` rearranges `inp` so that rows equal in every key of the sort by
/// `column` keep their input order.
pub open spec fn keeps_tied_order(out: Seq<FactionOverviewRow>, inp: Seq<FactionOverviewRow>, column: FactionOverviewSortColumn) -> bool {
    exists|p: Seq<int>| #[trigger] rearranged_by(out, inp, p)
        && forall|i: int, j: int| 0 <= i < j < out.len() && rows_tied(out[i], out[j], column)
            ==> #[trigger] p[i] < #[trigger] p[j]
}

/// Rows equal in every key compare alike against any third row.
proof fn lemma_tied_rows_compare_alike(a: FactionOverviewRow, c: FactionOverviewRow, b: FactionOverviewRow, sort: FactionOverviewSort)
    requires
        rows_tied(a, c, sort.column),
    ensures
        row_before(a, b, sort) == row_before(c, b, sort),
        row_before(b, a, sort) == row_before(b, c, sort),
{
}

/// Row `a` may be shown above row `b`.
pub open spec fn row_in_order(sort: FactionOverviewSort) -> spec_fn(FactionOverviewRow, FactionOverviewRow) -> bool {
    |a: FactionOverviewRow, b: FactionOverviewRow| !row_before(b, a, sort)
}

proof fn lemma_name_id_less_transitive(a: FactionOverviewRow, b: FactionOverviewRow, c: FactionOverviewRow)
    requires
        name_id_less(a, b),
        name_id_less(b, c),
    ensures
        name_id_less(a, c),
{
    if seq_lt(a.faction_name@, b.faction_name@) && seq_lt(b.faction_name@, c.faction_name@) {
        lemma_seq_lt_transitive(a.faction_name@, b.faction_name@, c.faction_name@);
    }
    if seq_lt(a.faction_id@, b.faction_id@) && seq_lt(b.faction_id@, c.faction_id@) {
        lemma_seq_lt_transitive(a.faction_id@, b.faction_id@, c.faction_id@);
    }
}

proof fn lemma_name_id_less_irreflexive(a: FactionOverviewRow)
    ensures
        !name_id_less(a, a),
{
    lemma_seq_lt_irreflexive(a.faction_name@);
    lemma_seq_lt_irreflexive(a.faction_id@);
}

proof fn lemma_name_id_total(a: FactionOverviewRow, b: FactionOverviewRow)
    ensures
        (a.faction_name@ == b.faction_name@ && a.faction_id@ == b.faction_id@) || name_id_less(a, b)
            || name_id_less(b, a),
{
    lemma_seq_lt_total(a.faction_name@, b.faction_name@);
    lemma_seq_lt_total(a.faction_id@, b.faction_id@);
}

proof fn lemma_name_id_less_asymmetric(a: FactionOverviewRow, b: FactionOverviewRow)
    requires
        name_id_less(a, b),
    ensures
        !name_id_less(b, a),
{
    if name_id_less(b, a) {
        lemma_name_id_less_transitive(a, b, a);
        lemma_name_id_less_irreflexive(a);
    }
}

/// Showing rows in order is a strict weak order: irreflexive and transitive.
pub proof fn lemma_row_before_strict(a: FactionOverviewRow, b: FactionOverviewRow, c: FactionOverviewRow, sort: FactionOverviewSort)
    ensures
        !row_before(a, a, sort),
        row_before(a, b, sort) && row_before(b, c, sort) ==> row_before(a, c, sort),
{
    lemma_name_id_less_irreflexive(a);
    if row_before(a, b, sort) && row_before(b, c, sort) {
        if name_id_less(a, b) && name_id_less(b, c) {
            lemma_name_id_less_transitive(a, b, c);
        }
        if name_id_less(b, a) && name_id_less(c, b) {
            lemma_name_id_less_transitive(c, b, a);
        }
        if name_id_less(a, b) && name_id_less(c, b) && name_id_less(b, a) {
            lemma_name_id_less_asymmetric(a, b);
        }
        if sort.column == FactionOverviewSortColumn::Faction {
            if name_id_less(c, a) && name_id_less(a, b) {
                lemma_name_id_less_transitive(c, a, b);
            }
            if name_id_less(c, a) && name_id_less(b, c) {
                lemma_name_id_less_transitive(b, c, a);
            }
            lemma_name_id_total(a, c);
            if name_id_less(c, a) {
                if sort.descending {
                    if name_id_less(b, a) && name_id_less(c, b) {
                        lemma_name_id_less_asymmetric(c, a);
                    }
                    if name_id_less(b, a) && !name_id_less(c, b) {
                        lemma_name_id_less_transitive(a, b, c);
                        lemma_name_id_less_asymmetric(c, a);
                    }
                    if !name_id_less(b, a) && name_id_less(c, b) {
                        lemma_name_id_less_transitive(b, c, a);
                        lemma_name_id_less_asymmetric(a, b);
                    }
                    if !name_id_less(b, a) && !name_id_less(c, b) {
                        lemma_name_id_less_transitive(a, b, c);
                        lemma_name_id_less_asymmetric(c, a);
                    }
                } else {
                    lemma_name_id_less_asymmetric(c, a);
                }
            }
        }
    }
}

/// The counts of a faction's cities and officers are the numbers of cities
/// it holds, of officers serving it, and of those among them who are active.
pub proof fn lemma_faction_counts(cs: Seq<City>, os: Seq<Officer>, fid: Seq<char>)
    ensures
        faction_city_count(cs, fid) == cs.filter(|c: City| c.faction_id@ == fid).len(),
        faction_officer_count(os, fid, false) == os.filter(|o: Officer| o.faction_id@ == fid).len(),
        faction_officer_count(os, fid, true) == os.filter(|o: Officer| o.faction_id@ == fid && o.status == OfficerStatus::Active).len(),
    decreases cs.len() + os.len(),
{
    reveal(Seq::filter);
    if cs.len() > 0 {
        lemma_faction_counts(cs.drop_last(), os, fid);
    }
    if os.len() > 0 {
        lemma_faction_counts(cs, os.drop_last(), fid);
    }
}

/// The number of cities of `cs` held by faction `fid`.
pub open spec fn faction_city_count(cs: Seq<City>, fid: Seq<char>) -> nat
    decreases cs.len(),
{
    if cs.len() == 0 {
        0
    } else {
        faction_city_count(cs.drop_last(), fid) + if cs.last().faction_id@ == fid { 1nat } else { 0nat }
    }
}

/// The sum of `f` over the cities of `cs` held by faction `fid`.
pub open spec fn faction_city_sum(cs: Seq<City>, fid: Seq<char>, f: spec_fn(City) -> int) -> int
    decreases cs.len(),
{
    if cs.len() == 0 {
        0
    } else {
        faction_city_sum(cs.drop_last(), fid, f) + if cs.last().faction_id@ == fid { f(cs.last()) } else { 0 }
    }
}

/// The number of officers of `os` serving faction `fid` (all of them, or only
/// the active ones).
pub open spec fn faction_officer_count(os: Seq<Officer>, fid: Seq<char>, active_only: bool) -> nat
    decreases os.len(),
{
    if os.len() == 0 {
        0
    } else {
        faction_officer_count(os.drop_last(), fid, active_only) + if os.last().faction_id@ == fid && (!active_only
            || os.last().status == OfficerStatus::Active) {
            1nat
        } else {
            0nat
        }
    }
}

pub open spec fn city_gold(c: City) -> int {
    c.gold as int
}

pub open spec fn city_food(c: City) -> int {
    c.food as int
}

pub open spec fn city_materials(c: City) -> int {
    c.materials as int
}

pub open spec fn city_population(c: City) -> int {
    c.population as int
}

pub open spec fn city_troops(c: City) -> int {
    troop_total(c.troops)
}

pub open spec fn city_wounded(c: City) -> int {
    troop_total(c.wounded_troops)
}

pub open spec fn city_infantry(c: City) -> int {
    c.troops.infantry as int
}

pub open spec fn city_cavalry(c: City) -> int {
    c.troops.cavalry as int
}

pub open spec fn city_archers(c: City) -> int {
    c.troops.archers as int
}

/// The size limits under which the totals of a game fit their counters: at
/// most `u32::MAX` cities, and no troop pool above `u32::MAX` soldiers.
pub open spec fn totals_fit(game: GameState) -> bool {
    &&& game.cities@.len() <= u32::MAX
    &&& forall|i: int| 0 <= i < game.cities@.len() ==> troop_total(#[trigger] game.cities@[i].troops) <= u32::MAX
        && troop_total(game.cities@[i].wounded_troops) <= u32::MAX
}

proof fn lemma_city_sum_bounds(cs: Seq<City>, fid: Seq<char>, f: spec_fn(City) -> int, lo: int, hi: int)
    requires
        lo <= 0 <= hi,
        forall|i: int| 0 <= i < cs.len() ==> lo <= #[trigger] f(cs[i]) <= hi,
    ensures
        cs.len() * lo <= faction_city_sum(cs, fid, f) <= cs.len() * hi,
    decreases cs.len(),
{
    if cs.len() > 0 {
        let n = cs.len() as int;
        assert forall|i: int| 0 <= i < cs.drop_last().len() implies lo <= #[trigger] f(cs.drop_last()[i]) <= hi by {
            assert(cs.drop_last()[i] == cs[i]);
        }
        lemma_city_sum_bounds(cs.drop_last(), fid, f, lo, hi);
        assert(f(cs[n - 1]) == f(cs.last()));
        assert((n - 1) * lo + lo == n * lo) by (nonlinear_arith);
        assert((n - 1) * hi + hi == n * hi) by (nonlinear_arith);
        assert(n * lo <= (n - 1) * lo) by (nonlinear_arith)
            requires lo <= 0, n >= 1;
        assert((n - 1) * hi <= n * hi) by (nonlinear_arith)
            requires hi >= 0, n >= 1;
    }
}

proof fn lemma_city_count_bound(cs: Seq<City>, fid: Seq<char>)
    ensures
        faction_city_count(cs, fid) <= cs.len(),
        faction_city_count(cs, fid) > 0 <==> holds_city(cs, fid),
    decreases cs.len(),
{
    if cs.len() > 0 {
        lemma_city_count_bound(cs.drop_last(), fid);
        if holds_city(cs, fid) && cs.last().faction_id@ != fid {
            let i = choose|i: int| 0 <= i < cs.len() && (#[trigger] cs[i]).faction_id@ == fid;
            assert(cs.drop_last()[i] == cs[i]);
        }
        if holds_city(cs.drop_last(), fid) {
            let i = choose|i: int| 0 <= i < cs.drop_last().len() && (#[trigger] cs.drop_last()[i]).faction_id@ == fid;
            assert(cs[i] == cs.drop_last()[i]);
        }
        if cs.last().faction_id@ == fid {
            assert(cs[cs.len() - 1] == cs.last());
        }
    }
}

proof fn lemma_officer_count_bound(os: Seq<Officer>, fid: Seq<char>, active_only: bool)
    ensures
        faction_officer_count(os, fid, active_only) <= os.len(),
    decreases os.len(),
{
    if os.len() > 0 {
        lemma_officer_count_bound(os.drop_last(), fid, active_only);
    }
}

/// What the cities of one faction hold together.
#[derive(Clone, Copy, Debug, PartialEq, Eq, Structural)]
pub struct FactionCityTotals {
    pub city_count: usize,
    pub gold: i64,
    pub food: i64,
    pub materials: i64,
    pub population: u64,
    pub infantry: u64,
    pub cavalry: u64,
    pub archers: u64,
    pub troops: u64,
    pub wounded: u64,
}

/// `t` holds the totals of faction `fid` over the cities `cs`.
pub open spec fn city_totals_of(t: FactionCityTotals, cs: Seq<City>, fid: Seq<char>) -> bool {
    &&& t.city_count == faction_city_count(cs, fid)
    &&& t.gold == faction_city_sum(cs, fid, |c: City| city_gold(c))
    &&& t.food == faction_city_sum(cs, fid, |c: City| city_food(c))
    &&& t.materials == faction_city_sum(cs, fid, |c: City| city_materials(c))
    &&& t.population == faction_city_sum(cs, fid, |c: City| city_population(c))
    &&& t.infantry == faction_city_sum(cs, fid, |c: City| city_infantry(c))
    &&& t.cavalry == faction_city_sum(cs, fid, |c: City| city_cavalry(c))
    &&& t.archers == faction_city_sum(cs, fid, |c: City| city_archers(c))
    &&& t.troops == faction_city_sum(cs, fid, |c: City| city_troops(c))
    &&& t.wounded == faction_city_sum(cs, fid, |c: City| city_wounded(c))
}

/// Adds what one city holds to the running totals.
fn add_city(t: &mut FactionCityTotals, city: &City, Ghost(n): Ghost<int>)
    requires
        n < u32::MAX,
        old(t).city_count <= n,
        n * (i32::MIN as int) <= old(t).gold <= n * (i32::MAX as int),
        n * (i32::MIN as int) <= old(t).food <= n * (i32::MAX as int),
        n * (i32::MIN as int) <= old(t).materials <= n * (i32::MAX as int),
        0 <= old(t).population <= n * (u32::MAX as int),
        0 <= old(t).infantry <= n * (u32::MAX as int),
        0 <= old(t).cavalry <= n * (u32::MAX as int),
        0 <= old(t).archers <= n * (u32::MAX as int),
        0 <= old(t).troops <= n * (u32::MAX as int),
        0 <= old(t).wounded <= n * (u32::MAX as int),
        troop_total(city.troops) <= u32::MAX,
        troop_total(city.wounded_troops) <= u32::MAX,
    ensures
        final(t).city_count == old(t).city_count + 1,
        final(t).gold == old(t).gold + city.gold,
        final(t).food == old(t).food + city.food,
        final(t).materials == old(t).materials + city.materials,
        final(t).population == old(t).population + city.population,
        final(t).infantry == old(t).infantry + city.troops.infantry,
        final(t).cavalry == old(t).cavalry + city.troops.cavalry,
        final(t).archers == old(t).archers + city.troops.archers,
        final(t).troops == old(t).troops + troop_total(city.troops),
        final(t).wounded == old(t).wounded + troop_total(city.wounded_troops),
{
    assert(n * (i32::MIN as int) >= (u32::MAX as int) * (i32::MIN as int)) by (nonlinear_arith)
        requires n < u32::MAX;
    assert(n * (i32::MAX as int) <= (u32::MAX as int) * (i32::MAX as int)) by (nonlinear_arith)
        requires n < u32::MAX;
    assert(n * (u32::MAX as int) <= (u32::MAX as int) * (u32::MAX as int)) by (nonlinear_arith)
        requires n < u32::MAX;
    t.city_count = t.city_count + 1;
    t.gold = t.gold + city.gold as i64;
    t.food = t.food + city.food as i64;
    t.materials = t.materials + city.materials as i64;
    t.population = t.population + city.population as u64;
    t.infantry = t.infantry + city.troops.infantry as u64;
    t.cavalry = t.cavalry + city.troops.cavalry as u64;
    t.archers = t.archers + city.troops.archers as u64;
    t.troops = t.troops + city.troops.total() as u64;
    t.wounded = t.wounded + city.wounded_troops.total() as u64;
}

/// The totals of the cities that faction `faction_id` holds.
pub fn faction_city_totals(game: &GameState, faction_id: &str) -> (t: FactionCityTotals)
    requires
        totals_fit(*game),
    ensures
        city_totals_of(t, game.cities@, faction_id@),
{
    let mut t = FactionCityTotals {
        city_count: 0,
        gold: 0,
        food: 0,
        materials: 0,
        population: 0,
        infantry: 0,
        cavalry: 0,
        archers: 0,
        troops: 0,
        wounded: 0,
    };
    let ghost cs = game.cities@;
    let ghost fid = faction_id@;
    let mut i: usize = 0;
    while i < game.cities.len()
        invariant
            cs == game.cities@,
            fid == faction_id@,
            totals_fit(*game),
            i <= cs.len(),
            city_totals_of(t, cs.take(i as int), fid),
        decreases cs.len() - i,
    {
        let ghost pre = cs.take(i as int);
        assert(cs.take(i as int + 1).drop_last() =~= pre);
        assert(cs.take(i as int + 1).last() == cs[i as int]);
        proof {
            lemma_city_count_bound(pre, fid);
            lemma_city_sum_bounds(pre, fid, |c: City| city_gold(c), i32::MIN as int, i32::MAX as int);
            lemma_city_sum_bounds(pre, fid, |c: City| city_food(c), i32::MIN as int, i32::MAX as int);
            lemma_city_sum_bounds(pre, fid, |c: City| city_materials(c), i32::MIN as int, i32::MAX as int);
            lemma_city_sum_bounds(pre, fid, |c: City| city_population(c), 0, u32::MAX as int);
            lemma_city_sum_bounds(pre, fid, |c: City| city_infantry(c), 0, u32::MAX as int);
            lemma_city_sum_bounds(pre, fid, |c: City| city_cavalry(c), 0, u32::MAX as int);
            lemma_city_sum_bounds(pre, fid, |c: City| city_archers(c), 0, u32::MAX as int);
            assert forall|k: int| 0 <= k < pre.len() implies 0 <= #[trigger] city_troops(pre[k]) <= u32::MAX by {
                assert(pre[k] == cs[k]);
            }
            assert forall|k: int| 0 <= k < pre.len() implies 0 <= #[trigger] city_wounded(pre[k]) <= u32::MAX by {
                assert(pre[k] == cs[k]);
                assert(troop_total(cs[k].troops) <= u32::MAX);
            }
            lemma_city_sum_bounds(pre, fid, |c: City| city_troops(c), 0, u32::MAX as int);
            lemma_city_sum_bounds(pre, fid, |c: City| city_wounded(c), 0, u32::MAX as int);
        }
        let city = &game.cities[i];
        if str_eq(city.faction_id.as_str(), faction_id) {
            add_city(&mut t, city, Ghost(i as int));
        }
        i = i + 1;
    }
    assert(cs.take(cs.len() as int) =~= cs);
    t
}

/// The number of officers of faction `faction_id`: all of them, or only the
/// active ones.
pub fn faction_officer_total(game: &GameState, faction_id: &str, active_only: bool) -> (n: usize)
    ensures
        n == faction_officer_count(game.officers@, faction_id@, active_only),
{
    let ghost os = game.officers@;
    let mut n: usize = 0;
    let mut i: usize = 0;
    while i < game.officers.len()
        invariant
            os == game.officers@,
            i <= os.len(),
            n == faction_officer_count(os.take(i as int), faction_id@, active_only),
        decreases os.len() - i,
    {
        assert(os.take(i as int + 1).drop_last() =~= os.take(i as int));
        assert(os.take(i as int + 1).last() == os[i as int]);
        proof {
            lemma_officer_count_bound(os.take(i as int), faction_id@, active_only);
        }
        let officer = &game.officers[i];
        if str_eq(officer.faction_id.as_str(), faction_id) && (!active_only || officer.is_active()) {
            n = n + 1;
        }
        i = i + 1;
    }
    assert(os.take(os.len() as int) =~= os);
    n
}

/// `r` is the overview row of faction `f` in `game`.
pub open spec fn overview_row_of(r: FactionOverviewRow, game: GameState, f: Faction) -> bool {
    let cs = game.cities@;
    let fid = f.id@;
    &&& r.faction_id@ == fid
    &&& r.faction_name@ == f.name@
    &&& r.city_count == faction_city_count(cs, fid)
    &&& r.active_officer_count == faction_officer_count(game.officers@, fid, true)
    &&& r.gold == faction_city_sum(cs, fid, |c: City| city_gold(c))
    &&& r.food == faction_city_sum(cs, fid, |c: City| city_food(c))
    &&& r.materials == faction_city_sum(cs, fid, |c: City| city_materials(c))
    &&& r.troops == faction_city_sum(cs, fid, |c: City| city_troops(c))
    &&& r.population == faction_city_sum(cs, fid, |c: City| city_population(c))
    &&& r.wounded == faction_city_sum(cs, fid, |c: City| city_wounded(c))
}

/// The overview row of one faction.
pub fn faction_overview_row(game: &GameState, faction: &Faction) -> (r: FactionOverviewRow)
    requires
        totals_fit(*game),
    ensures
        overview_row_of(r, *game, *faction),
{
    let totals = faction_city_totals(game, faction.id.as_str());
    FactionOverviewRow {
        faction_id: owned(faction.id.as_str()),
        faction_name: owned(faction.name.as_str()),
        city_count: totals.city_count,
        active_officer_count: faction_officer_total(game, faction.id.as_str(), true),
        gold: totals.gold,
        food: totals.food,
        materials: totals.materials,
        troops: totals.troops,
        population: totals.population,
        wounded: totals.wounded,
    }
}

/// Whether row `a` is shown above row `b`.
pub fn row_shown_before(a: &FactionOverviewRow, b: &FactionOverviewRow, sort: FactionOverviewSort) -> (r: bool)
    ensures
        r == row_before(*a, *b, sort),
{
    let a_name_less = str_less(a.faction_name.as_str(), b.faction_name.as_str());
    let b_name_less = str_less(b.faction_name.as_str(), a.faction_name.as_str());
    let same_name = str_eq(a.faction_name.as_str(), b.faction_name.as_str());
    let a_id_less = str_less(a.faction_id.as_str(), b.faction_id.as_str());
    let b_id_less = str_less(b.faction_id.as_str(), a.faction_id.as_str());
    let same_id = str_eq(a.faction_id.as_str(), b.faction_id.as_str());
    let a_first = a_name_less || (same_name && a_id_less);
    let b_first = b_name_less || (same_name && b_id_less);
    let (less, greater, equal) = match sort.column {
        FactionOverviewSortColumn::Faction => (a_first, b_first, same_name && same_id),
        FactionOverviewSortColumn::Cities => (
            a.city_count < b.city_count,
            b.city_count < a.city_count,
            a.city_count == b.city_count,
        ),
        FactionOverviewSortColumn::Officers => (
            a.active_officer_count < b.active_officer_count,
            b.active_officer_count < a.active_officer_count,
            a.active_officer_count == b.active_officer_count,
        ),
        FactionOverviewSortColumn::Gold => (a.gold < b.gold, b.gold < a.gold, a.gold == b.gold),
        FactionOverviewSortColumn::Food => (a.food < b.food, b.food < a.food, a.food == b.food),
        FactionOverviewSortColumn::Materials => (
            a.materials < b.materials,
            b.materials < a.materials,
            a.materials == b.materials,
        ),
        FactionOverviewSortColumn::Troops => (a.troops < b.troops, b.troops < a.troops, a.troops == b.troops),
        FactionOverviewSortColumn::Population => (
            a.population < b.population,
            b.population < a.population,
            a.population == b.population,
        ),
        FactionOverviewSortColumn::Wounded => (
            a.wounded < b.wounded,
            b.wounded < a.wounded,
            a.wounded == b.wounded,
        ),
    };
    let primary_first = if sort.descending { greater } else { less };
    primary_first || (equal && a_first)
}

/// Sorts the rows in place by `sort`, rows that tie in the sort column by
/// faction name and then identifier. Rows that tie in all of these keep their
/// order.
pub fn sort_faction_overview_rows(rows: &mut Vec<FactionOverviewRow>, sort: FactionOverviewSort)
    ensures
        final(rows)@.to_multiset() == old(rows)@.to_multiset(),
        sorted_by(final(rows)@, row_in_order(sort)),
        keeps_tied_order(final(rows)@, old(rows)@, sort.column),
{
    broadcast use vstd::seq_lib::group_to_multiset_ensures;
    let mut rest: Vec<FactionOverviewRow> = Vec::new();
    std::mem::swap(&mut rest, rows);
    let ghost initial = rest@;
    let ghost n = initial.len();
    let ghost in_order = row_in_order(sort);
    let ghost mut opos: Seq<int> = Seq::empty();
    let ghost mut rpos: Seq<int> = Seq::new(n, |i: int| i);
    while rest.len() > 0
        invariant
            in_order == row_in_order(sort),
            rows@.to_multiset().add(rest@.to_multiset()) == initial.to_multiset(),
            sorted_by(rows@, in_order),
            forall|i: int, j: int| 0 <= i < rows@.len() && 0 <= j < rest@.len() ==> in_order(rows@[i], rest@[j]),
            n == initial.len(),
            rows@.len() + rest@.len() == n,
            opos.len() == rows@.len(),
            rpos.len() == rest@.len(),
            forall|k: int| 0 <= k < rows@.len() ==> 0 <= #[trigger] opos[k] < n && rows@[k] == initial[opos[k]],
            forall|k: int| 0 <= k < rest@.len() ==> 0 <= #[trigger] rpos[k] < n && rest@[k] == initial[rpos[k]],
            forall|a: int, b: int| 0 <= a < b < rest@.len() ==> #[trigger] rpos[a] < #[trigger] rpos[b],
            forall|a: int, b: int| 0 <= a < b < rows@.len() ==> #[trigger] opos[a] != #[trigger] opos[b],
            forall|a: int, b: int| 0 <= a < rows@.len() && 0 <= b < rest@.len() ==> #[trigger] opos[a] != #[trigger] rpos[b],
            forall|a: int, b: int| 0 <= a < b < rows@.len() && rows_tied(rows@[a], rows@[b], sort.column)
                ==> #[trigger] opos[a] < #[trigger] opos[b],
            forall|a: int, b: int| 0 <= a < rows@.len() && 0 <= b < rest@.len() && rows_tied(rows@[a], rest@[b], sort.column)
                ==> #[trigger] opos[a] < #[trigger] rpos[b],
        decreases rest.len(),
    {
        let mut best: usize = 0;
        let mut k: usize = 1;
        proof {
            lemma_row_before_strict(rest@[0], rest@[0], rest@[0], sort);
        }
        while k < rest.len()
            invariant
                0 <= best < k <= rest.len(),
                forall|j: int| 0 <= j < k ==> !row_before(#[trigger] rest@[j], rest@[best as int], sort),
                forall|j: int| 0 <= j < best ==> !rows_tied(#[trigger] rest@[j], rest@[best as int], sort.column),
            decreases rest.len() - k,
        {
            if row_shown_before(&rest[k], &rest[best], sort) {
                proof {
                    assert forall|j: int| 0 <= j < k + 1 implies !row_before(#[trigger] rest@[j], rest@[k as int], sort) by {
                        lemma_row_before_strict(rest@[j], rest@[k as int], rest@[best as int], sort);
                        lemma_row_before_strict(rest@[k as int], rest@[k as int], rest@[k as int], sort);
                    }
                    assert forall|j: int| 0 <= j < k implies !rows_tied(#[trigger] rest@[j], rest@[k as int], sort.column) by {
                        if rows_tied(rest@[j], rest@[k as int], sort.column) {
                            lemma_tied_rows_compare_alike(rest@[j], rest@[k as int], rest@[best as int], sort);
                        }
                    }
                }
                best = k;
            }
            k = k + 1;
        }
        let ghost before_rest = rest@;
        let ghost before_rows = rows@;
        let ghost before_opos = opos;
        let ghost before_rpos = rpos;
        let row = rest.remove(best);
        proof {
            vstd::seq_lib::to_multiset_remove(before_rest, best as int);
            assert(before_rest.remove(best as int) == rest@);
        }
        rows.push(row);
        proof {
            let p = before_rpos[best as int];
            opos = before_opos.push(p);
            rpos = before_rpos.remove(best as int);
            assert(rows@ == before_rows.push(row));
            assert(rows@.to_multiset() == before_rows.to_multiset().insert(row)) by {
                vstd::seq_lib::to_multiset_build(before_rows, row);
            }
            assert(rows@.to_multiset().add(rest@.to_multiset()) =~= initial.to_multiset()) by {
                broadcast use vstd::multiset::group_multiset_axioms;
                assert(before_rest[best as int] == row);
                assert(before_rest.contains(row));
                vstd::seq_lib::to_multiset_contains(before_rest, row);
                assert(before_rest.to_multiset().count(row) > 0);
            }
            assert forall|i: int, j: int| 0 <= i < j < rows@.len() implies #[trigger] in_order(rows@[i], rows@[j]) by {
                if j == rows@.len() - 1 {
                    assert(in_order(before_rows[i], before_rest[best as int]));
                } else {
                    assert(in_order(before_rows[i], before_rows[j]));
                }
            }
            assert forall|i: int, j: int| 0 <= i < rows@.len() && 0 <= j < rest@.len() implies in_order(rows@[i], rest@[j]) by {
                let jj = if j < best { j } else { j + 1 };
                assert(rest@[j] == before_rest[jj]);
                if i == rows@.len() - 1 {
                    assert(!row_before(before_rest[jj], before_rest[best as int], sort));
                } else {
                    assert(in_order(before_rows[i], before_rest[jj]));
                }
            }
            assert forall|k: int| 0 <= k < rows@.len() implies 0 <= #[trigger] opos[k] < n && rows@[k] == initial[opos[k]] by {
                if k < before_rows.len() {
                    assert(opos[k] == before_opos[k]);
                }
            }
            assert forall|k: int| 0 <= k < rest@.len() implies 0 <= #[trigger] rpos[k] < n && rest@[k] == initial[rpos[k]] by {
                let kk = if k < best { k } else { k + 1 };
                assert(rpos[k] == before_rpos[kk]);
                assert(rest@[k] == before_rest[kk]);
            }
            assert forall|a: int, b: int| 0 <= a < b < rest@.len() implies #[trigger] rpos[a] < #[trigger] rpos[b] by {
                let aa = if a < best { a } else { a + 1 };
                let bb = if b < best { b } else { b + 1 };
                assert(rpos[a] == before_rpos[aa]);
                assert(rpos[b] == before_rpos[bb]);
            }
            assert forall|a: int, b: int| 0 <= a < b < rows@.len() implies #[trigger] opos[a] != #[trigger] opos[b] by {
                assert(opos[a] == before_opos[a]);
                if b < before_rows.len() {
                    assert(opos[b] == before_opos[b]);
                } else {
                    assert(before_opos[a] != before_rpos[best as int]);
                }
            }
            assert forall|a: int, b: int| 0 <= a < rows@.len() && 0 <= b < rest@.len() implies #[trigger] opos[a] != #[trigger] rpos[b] by {
                let bb = if b < best { b } else { b + 1 };
                assert(rpos[b] == before_rpos[bb]);
                if a < before_rows.len() {
                    assert(opos[a] == before_opos[a]);
                    assert(before_opos[a] != before_rpos[bb]);
                } else if bb < best {
                    assert(before_rpos[bb] < before_rpos[best as int]);
                } else {
                    assert(before_rpos[best as int] < before_rpos[bb]);
                }
            }
            assert forall|a: int, b: int| 0 <= a < b < rows@.len() && rows_tied(rows@[a], rows@[b], sort.column)
                implies #[trigger] opos[a] < #[trigger] opos[b] by {
                assert(opos[a] == before_opos[a]);
                assert(rows@[a] == before_rows[a]);
                if b < before_rows.len() {
                    assert(opos[b] == before_opos[b]);
                    assert(rows@[b] == before_rows[b]);
                } else {
                    assert(rows@[b] == before_rest[best as int]);
                    assert(before_opos[a] < before_rpos[best as int]);
                }
            }
            assert forall|a: int, b: int| 0 <= a < rows@.len() && 0 <= b < rest@.len() && rows_tied(rows@[a], rest@[b], sort.column)
                implies #[trigger] opos[a] < #[trigger] rpos[b] by {
                let bb = if b < best { b } else { b + 1 };
                assert(rpos[b] == before_rpos[bb]);
                assert(rest@[b] == before_rest[bb]);
                if a < before_rows.len() {
                    assert(opos[a] == before_opos[a]);
                    assert(rows@[a] == before_rows[a]);
                    assert(before_opos[a] < before_rpos[bb]);
                } else {
                    assert(rows@[a] == before_rest[best as int]);
                    if bb < best {
                        assert(!rows_tied(before_rest[bb], before_rest[best as int], sort.column));
                    }
                    assert(before_rpos[best as int] < before_rpos[bb]);
                }
            }
        }
    }
    assert(rest@.to_multiset() =~= vstd::multiset::Multiset::empty());
    assert(rows@.to_multiset() =~= rows@.to_multiset().add(rest@.to_multiset()));
    assert(rearranged_by(rows@, initial, opos));
}

/// The factions of `game` that still hold a city, in table order.
pub open spec fn living_factions(game: GameState) -> Seq<Faction> {
    game.factions@.filter(|f: Faction| holds_city(game.cities@, f.id@))
}

/// `rows` are the overview rows of the factions `fs`, one for one.
pub open spec fn overview_rows_of(rows: Seq<FactionOverviewRow>, game: GameState, fs: Seq<Faction>) -> bool {
    &&& rows.len() == fs.len()
    &&& forall|i: int| 0 <= i < fs.len() ==> overview_row_of(#[trigger] rows[i], game, fs[i])
}

/// The overview table of `game`: the row of every faction that still holds a
/// city, sorted by `sort`; rows equal in every key keep the table's order.
pub fn faction_overview_rows(game: &GameState, sort: FactionOverviewSort) -> (rows: Vec<FactionOverviewRow>)
    requires
        totals_fit(*game),
    ensures
        exists|u: Seq<FactionOverviewRow>| overview_rows_of(u, *game, living_factions(*game))
            && #[trigger] u.to_multiset() == rows@.to_multiset()
            && keeps_tied_order(rows@, u, sort.column),
        sorted_by(rows@, row_in_order(sort)),
        ids_distinct(*game) ==> forall|a: int, b: int|
            0 <= a < b < rows@.len() ==> (#[trigger] rows@[a]).faction_id@ != (#[trigger] rows@[b]).faction_id@,
{
    let ghost fs = game.factions@;
    let ghost alive = |f: Faction| holds_city(game.cities@, f.id@);
    let mut rows: Vec<FactionOverviewRow> = Vec::new();
    let mut i: usize = 0;
    while i < game.factions.len()
        invariant
            fs == game.factions@,
            alive == (|f: Faction| holds_city(game.cities@, f.id@)),
            totals_fit(*game),
            i <= fs.len(),
            overview_rows_of(rows@, *game, fs.take(i as int).filter(alive)),
            forall|k: int| 0 <= k < rows@.len() ==> exists|j: int| 0 <= j < i && (#[trigger] rows@[k]).faction_id@ == fs[j].id@,
            ids_distinct(*game) ==> forall|a: int, b: int|
                0 <= a < b < rows@.len() ==> (#[trigger] rows@[a]).faction_id@ != (#[trigger] rows@[b]).faction_id@,
        decreases fs.len() - i,
    {
        let ghost pre = fs.take(i as int);
        assert(fs.take(i as int + 1).drop_last() =~= pre);
        assert(fs.take(i as int + 1).last() == fs[i as int]);
        let faction = &game.factions[i];
        let ghost before = rows@;
        if game.faction_alive(faction.id.as_str()) {
            let row = faction_overview_row(game, faction);
            rows.push(row);
            proof {
                assert(rows@[before.len() as int].faction_id@ == fs[i as int].id@);
                assert forall|k: int| 0 <= k < rows@.len() implies exists|j: int| 0 <= j < i + 1 && (#[trigger] rows@[k]).faction_id@ == fs[j].id@ by {
                    if k < before.len() {
                        assert(rows@[k] == before[k]);
                    } else {
                        assert(rows@[k].faction_id@ == fs[i as int].id@);
                    }
                }
                if ids_distinct(*game) {
                    assert forall|a: int, b: int| 0 <= a < b < rows@.len() implies (#[trigger] rows@[a]).faction_id@ != (#[trigger] rows@[b]).faction_id@ by {
                        if b == before.len() {
                            assert(rows@[a] == before[a]);
                            let j = choose|j: int| 0 <= j < i && (#[trigger] before[a]).faction_id@ == fs[j].id@;
                            assert(fs[j].id@ != fs[i as int].id@);
                        } else {
                            assert(rows@[a] == before[a]);
                            assert(rows@[b] == before[b]);
                        }
                    }
                }
            }
        }
        assert(fs.take(i as int + 1).filter(alive) == if alive(fs[i as int]) {
            pre.filter(alive).push(fs[i as int])
        } else {
            pre.filter(alive)
        }) by {
            reveal(Seq::filter);
        }
        i = i + 1;
    }
    assert(fs.take(fs.len() as int) =~= fs);
    let ghost unsorted = rows@;
    sort_faction_overview_rows(&mut rows, sort);
    assert(overview_rows_of(unsorted, *game, living_factions(*game)));
    proof {
        if ids_distinct(*game) {
            lemma_permuted_ids_distinct(unsorted, rows@);
        }
    }
    rows
}

/// Rows with distinct faction identifiers keep them distinct in any order.
proof fn lemma_permuted_ids_distinct(u: Seq<FactionOverviewRow>, r: Seq<FactionOverviewRow>)
    requires
        u.to_multiset() == r.to_multiset(),
        forall|a: int, b: int| 0 <= a < b < u.len() ==> (#[trigger] u[a]).faction_id@ != (#[trigger] u[b]).faction_id@,
    ensures
        forall|a: int, b: int| 0 <= a < b < r.len() ==> (#[trigger] r[a]).faction_id@ != (#[trigger] r[b]).faction_id@,
{
    broadcast use vstd::seq_lib::group_to_multiset_ensures;
    assert(u.no_duplicates()) by {
        assert forall|a: int, b: int| 0 <= a < u.len() && 0 <= b < u.len() && a != b implies u[a] != u[b] by {
            if a < b {
                assert(u[a].faction_id@ != u[b].faction_id@);
            } else {
                assert(u[b].faction_id@ != u[a].faction_id@);
            }
        }
    }
    u.lemma_multiset_has_no_duplicates();
    r.lemma_multiset_has_no_duplicates_conv();
    assert forall|a: int, b: int| 0 <= a < b < r.len() implies (#[trigger] r[a]).faction_id@ != (#[trigger] r[b]).faction_id@ by {
        assert(r.contains(r[a]));
        assert(r.contains(r[b]));
        assert(u.to_multiset().contains(r[a]));
        assert(u.to_multiset().contains(r[b]));
        assert(u.contains(r[a]));
        assert(u.contains(r[b]));
        let ia = choose|ia: int| 0 <= ia < u.len() && u[ia] == r[a];
        let ib = choose|ib: int| 0 <= ib < u.len() && u[ib] == r[b];
        assert(r[a] != r[b]);
        assert(ia != ib);
        if ia < ib {
            assert(u[ia].faction_id@ != u[ib].faction_id@);
        } else {
            assert(u[ib].faction_id@ != u[ia].faction_id@);
        }
    }
}

/// The name of city `city_id`, or the identifier itself for an unknown city.
pub fn city_name(game: &GameState, city_id: &str) -> (name: String)
    ensures
        name@ == match city_index(game.cities@, city_id@) {
            Some(i) => game.cities@[i].name@,
            None => city_id@,
        },
{
    match game.find_city(city_id) {
        Some(i) => owned(game.cities[i].name.as_str()),
        None => owned(city_id),
    }
}

/// The name of faction `faction_id`, or the identifier itself for an unknown
/// faction.
pub fn faction_name(game: &GameState, faction_id: &str) -> (name: String)
    ensures
        name@ == match faction_index(game.factions@, faction_id@) {
            Some(i) => game.factions@[i].name@,
            None => faction_id@,
        },
{
    match game.find_faction(faction_id) {
        Some(i) => owned(game.factions[i].name.as_str()),
        None => owned(faction_id),
    }
}

/// What the pointer did on a row of the overview table.
#[derive(Clone, Copy, Debug, PartialEq, Eq, Structural, Default)]
pub struct FactionRowInteraction {
    pub clicked: bool,
    pub double_clicked: bool,
    pub view_clicked: bool,
}

/// Any interaction selects the row's faction; a double click or the view
/// button also opens its detail.
pub fn apply_faction_row_interaction(
    row_id: &str,
    selected_faction_id: &mut Option<String>,
    faction_detail_id: &mut Option<String>,
    interaction: FactionRowInteraction,
)
    ensures
        if interaction.clicked || interaction.double_clicked || interaction.view_clicked {
            *final(selected_faction_id) matches Some(s) && s@ == row_id@
        } else {
            *final(selected_faction_id) == *old(selected_faction_id)
        },
        if interaction.double_clicked || interaction.view_clicked {
            *final(faction_detail_id) matches Some(s) && s@ == row_id@
        } else {
            *final(faction_detail_id) == *old(faction_detail_id)
        },
{
    if interaction.clicked || interaction.double_clicked || interaction.view_clicked {
        *selected_faction_id = Some(owned(row_id));
    }
    if interaction.double_clicked || interaction.view_clicked {
        *faction_detail_id = Some(owned(row_id));
    }
}

/// Soldiers of each arm, summed over several pools.
#[derive(Clone, Copy, Debug, PartialEq, Eq, Structural)]
pub struct TroopTotals {
    pub infantry: u64,
    pub cavalry: u64,
    pub archers: u64,
}

/// The resources block of a faction's detail view.
#[derive(Clone, Copy, Debug, PartialEq, Eq, Structural)]
pub struct FactionDetailResources {
    pub city_count: usize,
    pub active_officer_count: usize,
    pub total_officer_count: usize,
    pub gold: i64,
    pub food: i64,
    pub materials: i64,
    pub population: u64,
    pub troops: TroopTotals,
    pub wounded: u64,
}

/// `r` holds the resources of faction `fid`: its cities' holdings, and how
/// many officers serve it, in all and actively.
pub open spec fn detail_resources_of(r: FactionDetailResources, game: GameState, fid: Seq<char>) -> bool {
    let cs = game.cities@;
    &&& r.city_count == faction_city_count(cs, fid)
    &&& r.active_officer_count == faction_officer_count(game.officers@, fid, true)
    &&& r.total_officer_count == faction_officer_count(game.officers@, fid, false)
    &&& r.gold == faction_city_sum(cs, fid, |c: City| city_gold(c))
    &&& r.food == faction_city_sum(cs, fid, |c: City| city_food(c))
    &&& r.materials == faction_city_sum(cs, fid, |c: City| city_materials(c))
    &&& r.population == faction_city_sum(cs, fid, |c: City| city_population(c))
    &&& r.troops.infantry == faction_city_sum(cs, fid, |c: City| city_infantry(c))
    &&& r.troops.cavalry == faction_city_sum(cs, fid, |c: City| city_cavalry(c))
    &&& r.troops.archers == faction_city_sum(cs, fid, |c: City| city_archers(c))
    &&& r.wounded == faction_city_sum(cs, fid, |c: City| city_wounded(c))
}

/// The resources of faction `faction_id`: its cities' holdings, and how many
/// officers serve it, in all and actively.
pub fn faction_detail_resources(game: &GameState, faction_id: &str) -> (r: FactionDetailResources)
    requires
        totals_fit(*game),
    ensures
        detail_resources_of(r, *game, faction_id@),
{
    let t = faction_city_totals(game, faction_id);
    FactionDetailResources {
        city_count: t.city_count,
        active_officer_count: faction_officer_total(game, faction_id, true),
        total_officer_count: faction_officer_total(game, faction_id, false),
        gold: t.gold,
        food: t.food,
        materials: t.materials,
        population: t.population,
        troops: TroopTotals { infantry: t.infantry, cavalry: t.cavalry, archers: t.archers },
        wounded: t.wounded,
    }
}

/// The resource strip of the top bar for one faction.
#[derive(Clone, Copy, Debug, PartialEq, Eq, Structural)]
pub struct FactionResourceSummary {
    pub city_count: usize,
    pub gold: i64,
    pub food: i64,
    pub materials: i64,
    pub troops: u64,
    pub population: u64,
    pub wounded: u64,
}

/// `s` sums what the cities of faction `fid` hold.
pub open spec fn resource_summary_of(s: FactionResourceSummary, cs: Seq<City>, fid: Seq<char>) -> bool {
    &&& s.city_count == faction_city_count(cs, fid)
    &&& s.gold == faction_city_sum(cs, fid, |c: City| city_gold(c))
    &&& s.food == faction_city_sum(cs, fid, |c: City| city_food(c))
    &&& s.materials == faction_city_sum(cs, fid, |c: City| city_materials(c))
    &&& s.troops == faction_city_sum(cs, fid, |c: City| city_troops(c))
    &&& s.population == faction_city_sum(cs, fid, |c: City| city_population(c))
    &&& s.wounded == faction_city_sum(cs, fid, |c: City| city_wounded(c))
}

impl FactionResourceSummary {
    /// The holdings of the cities of faction `faction_id`.
    pub fn from_game(game: &GameState, faction_id: &str) -> (s: Self)
        requires
            totals_fit(*game),
        ensures
            resource_summary_of(s, game.cities@, faction_id@),
    {
        let t = faction_city_totals(game, faction_id);
        FactionResourceSummary {
            city_count: t.city_count,
            gold: t.gold,
            food: t.food,
            materials: t.materials,
            troops: t.troops,
            population: t.population,
            wounded: t.wounded,
        }
    }
}

/// The player's holdings shown in the end-of-month summary.
#[derive(Clone, Copy, Debug, PartialEq, Eq, Structural)]
pub struct FactionTurnSummary {
    pub city_count: usize,
    pub gold: i64,
    pub food: i64,
    pub materials: i64,
    pub troops: u64,
    pub wounded: u64,
    pub population: u64,
}

impl FactionTurnSummary {
    /// The holdings of the cities of the player's faction.
    pub fn from_game(game: &GameState) -> (s: Self)
        requires
            totals_fit(*game),
        ensures
            ({
                let cs = game.cities@;
                let fid = game.player_faction_id@;
                &&& s.city_count == faction_city_count(cs, fid)
                &&& s.gold == faction_city_sum(cs, fid, |c: City| city_gold(c))
                &&& s.food == faction_city_sum(cs, fid, |c: City| city_food(c))
                &&& s.materials == faction_city_sum(cs, fid, |c: City| city_materials(c))
                &&& s.troops == faction_city_sum(cs, fid, |c: City| city_troops(c))
                &&& s.wounded == faction_city_sum(cs, fid, |c: City| city_wounded(c))
                &&& s.population == faction_city_sum(cs, fid, |c: City| city_population(c))
            }),
    {
        let t = faction_city_totals(game, game.player_faction_id.as_str());
        FactionTurnSummary {
            city_count: t.city_count,
            gold: t.gold,
            food: t.food,
            materials: t.materials,
            troops: t.troops,
            wounded: t.wounded,
            population: t.population,
        }
    }
}

/// The rank by which officers of a faction are listed: the ruler, the heir
/// and city governors come first, then holders of higher court offices.
pub open spec fn rank_score(game: GameState, faction: Faction, officer: Officer) -> int {
    (if faction.ruler_id@ == officer.id@ { 10_000int } else { 0 })
    + (if faction.heir_id matches Some(h) && h@ == officer.id@ { 8_000int } else { 0 })
    + (if governs_city(game.cities@, officer.id@) { 4_000int } else { 0 })
    + match officer.office_id {
        Some(o) => match post_index(game.official_posts@, o@) {
            Some(p) => game.official_posts@[p].rank_order * 100,
            None => 0,
        },
        None => 0,
    }
}

/// The listing rank of `officer` within `faction`.
pub fn officer_rank_score(game: &GameState, faction: &Faction, officer: &Officer) -> (score: i32)
    ensures
        score == rank_score(*game, *faction, *officer),
{
    let mut score: i32 = 0;
    if str_eq(faction.ruler_id.as_str(), officer.id.as_str()) {
        score = score + 10_000;
    }
    match &faction.heir_id {
        Some(h) => {
            if str_eq(h.as_str(), officer.id.as_str()) {
                score = score + 8_000;
            }
        },
        None => {},
    }
    if game.governs_any_city(officer.id.as_str()) {
        score = score + 4_000;
    }
    match &officer.office_id {
        Some(o) => match game.find_post(o.as_str()) {
            Some(p) => {
                score = score + game.official_posts[p].rank_order as i32 * 100;
            },
            None => {},
        },
        None => {},
    }
    score
}

proof fn lemma_active_at_most_all(os: Seq<Officer>, fid: Seq<char>)
    ensures
        faction_officer_count(os, fid, true) <= faction_officer_count(os, fid, false),
    decreases os.len(),
{
    if os.len() > 0 {
        lemma_active_at_most_all(os.drop_last(), fid);
    }
}

proof fn lemma_troops_by_arm(cs: Seq<City>, fid: Seq<char>)
    ensures
        faction_city_sum(cs, fid, |c: City| city_troops(c)) == faction_city_sum(cs, fid, |c: City| city_infantry(c))
            + faction_city_sum(cs, fid, |c: City| city_cavalry(c)) + faction_city_sum(cs, fid, |c: City| city_archers(c)),
    decreases cs.len(),
{
    if cs.len() > 0 {
        lemma_troops_by_arm(cs.drop_last(), fid);
    }
}

/// The detail window and the overview table agree on a faction: the same
/// cities, stocks, people and wounded, as many active officers (no more than
/// all its officers), and the detail's soldiers of each arm add up to the
/// overview's troops.
pub proof fn lemma_detail_agrees_with_overview(r: FactionDetailResources, w: FactionOverviewRow, game: GameState, f: Faction)
    requires
        detail_resources_of(r, game, f.id@),
        overview_row_of(w, game, f),
    ensures
        r.city_count == w.city_count,
        r.active_officer_count == w.active_officer_count,
        r.active_officer_count <= r.total_officer_count,
        r.gold == w.gold,
        r.food == w.food,
        r.materials == w.materials,
        r.population == w.population,
        r.wounded == w.wounded,
        r.troops.infantry + r.troops.cavalry + r.troops.archers == w.troops,
{
    lemma_active_at_most_all(game.officers@, f.id@);
    lemma_troops_by_arm(game.cities@, f.id@);
}

} // verus!
