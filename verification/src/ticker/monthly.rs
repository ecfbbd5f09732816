use crate::ticker::Tick;
use vstd::prelude::*;

verus! {

/// All observations that fall in one calendar month, in encounter order.
#[derive(Debug)]
pub struct MonthGroup {
    pub year: i32,
    pub month: u8,
    pub ticks: Vec<Tick>,
}

/// The mathematical value of one month group.
pub ghost struct GroupModel {
    pub year: int,
    pub month: int,
    pub ticks: Seq<Tick>,
}

impl View for MonthGroup {
    type V = GroupModel;

    open spec fn view(&self) -> GroupModel {
        GroupModel { year: self.year as int, month: self.month as int, ticks: self.ticks@ }
    }
}

/// The values of a sequence of month groups.
pub open spec fn gview(v: Seq<MonthGroup>) -> Seq<GroupModel> {
    v.map_values(|g: MonthGroup| g@)
}

/// The group holding only `t`.
pub open spec fn singleton_group(t: Tick) -> GroupModel {
    GroupModel { year: t.date.year as int, month: t.date.month as int, ticks: seq![t] }
}

/// `t` belongs to the month that `g` collects.
pub open spec fn tick_in_group(g: GroupModel, t: Tick) -> bool {
    g.year == t.date.year && g.month == t.date.month
}

/// `t`'s month comes before the month that `g` collects.
pub open spec fn tick_before_group(t: Tick, g: GroupModel) -> bool {
    t.date.year < g.year || (t.date.year == g.year && t.date.month < g.month)
}

/// `t`'s month comes after the month that `g` collects.
pub open spec fn tick_after_group(t: Tick, g: GroupModel) -> bool {
    g.year < t.date.year || (g.year == t.date.year && g.month < t.date.month)
}

/// The months of `g1` and `g2` in strict order.
pub open spec fn group_lt(g1: GroupModel, g2: GroupModel) -> bool {
    g1.year < g2.year || (g1.year == g2.year && g1.month < g2.month)
}

/// Appends `t` to its month's group, keeping the groups ordered by
/// (year, month); a month not seen before gets a new group at its
/// ordered position.
pub open spec fn insert_tick(gs: Seq<GroupModel>, t: Tick) -> Seq<GroupModel>
    decreases gs.len(),
{
    if gs.len() == 0 {
        seq![singleton_group(t)]
    } else if tick_in_group(gs[0], t) {
        seq![
            GroupModel { year: gs[0].year, month: gs[0].month, ticks: gs[0].ticks.push(t) },
        ] + gs.skip(1)
    } else if tick_before_group(t, gs[0]) {
        seq![singleton_group(t)] + gs
    } else {
        seq![gs[0]] + insert_tick(gs.skip(1), t)
    }
}

/// Groups a series by (year, month): one group per month that occurs,
/// ordered by (year, month), each keeping its observations in encounter
/// order.
pub open spec fn build_groups(s: Seq<Tick>) -> Seq<GroupModel>
    decreases s.len(),
{
    if s.len() == 0 {
        Seq::empty()
    } else {
        insert_tick(build_groups(s.drop_last()), s.last())
    }
}

/// Well-formed month grouping: groups strictly ordered by (year, month),
/// none empty, and every observation inside a group belongs to it.
pub open spec fn groups_wf(gs: Seq<GroupModel>) -> bool {
    &&& forall|i: int, j: int| 0 <= i < j < gs.len() ==> group_lt(gs[i], gs[j])
    &&& forall|i: int| 0 <= i < gs.len() ==> gs[i].ticks.len() > 0
    &&& forall|i: int, k: int|
        0 <= i < gs.len() && 0 <= k < gs[i].ticks.len() ==> tick_in_group(gs[i], gs[i].ticks[k])
}

/// The first observation of each group.
pub open spec fn firsts_of(gs: Seq<GroupModel>) -> Seq<Tick> {
    gs.map_values(|g: GroupModel| g.ticks[0])
}

/// The middle observation of each group: index `len / 2`, so an
/// even-sized group yields the element just after its midpoint.
pub open spec fn middles_of(gs: Seq<GroupModel>) -> Seq<Tick> {
    gs.map_values(|g: GroupModel| g.ticks[g.ticks.len() as int / 2])
}

/// The last observation of each group.
pub open spec fn lasts_of(gs: Seq<GroupModel>) -> Seq<Tick> {
    gs.map_values(|g: GroupModel| g.ticks.last())
}

proof fn lemma_insert_tick_wf(gs: Seq<GroupModel>, t: Tick)
    requires
        groups_wf(gs),
    ensures
        groups_wf(insert_tick(gs, t)),
    decreases gs.len(),
{
    if gs.len() == 0 {
    } else if tick_in_group(gs[0], t) {
        let g2 = GroupModel { year: gs[0].year, month: gs[0].month, ticks: gs[0].ticks.push(t) };
        let r = seq![g2] + gs.skip(1);
        assert forall|i: int, k: int|
            0 <= i < r.len() && 0 <= k < r[i].ticks.len() implies tick_in_group(r[i], r[i].ticks[k]) by {
            if i == 0 {
                if k < gs[0].ticks.len() {
                    assert(r[0].ticks[k] == gs[0].ticks[k]);
                }
            } else {
                assert(r[i] == gs[i]);
            }
        }
        assert forall|i: int, j: int| 0 <= i < j < r.len() implies group_lt(r[i], r[j]) by {
            if i == 0 {
                assert(group_lt(gs[0], gs[j]));
            } else {
                assert(r[i] == gs[i] && r[j] == gs[j]);
            }
        }
    } else if tick_before_group(t, gs[0]) {
        let r = seq![singleton_group(t)] + gs;
        assert forall|i: int, j: int| 0 <= i < j < r.len() implies group_lt(r[i], r[j]) by {
            if i == 0 {
                assert(group_lt(singleton_group(t), gs[0]));
                if j > 1 {
                    assert(group_lt(gs[0], gs[j - 1]));
                }
            } else {
                assert(r[i] == gs[i - 1] && r[j] == gs[j - 1]);
            }
        }
    } else {
        let rest = insert_tick(gs.skip(1), t);
        assert(groups_wf(gs.skip(1))) by {
            assert(forall|i: int| 0 <= i < gs.skip(1).len() ==> gs.skip(1)[i] == gs[i + 1]);
        }
        lemma_insert_tick_wf(gs.skip(1), t);
        let r = seq![gs[0]] + rest;
        lemma_insert_tick_months(gs.skip(1), t);
        assert forall|i: int, j: int| 0 <= i < j < r.len() implies group_lt(r[i], r[j]) by {
            if i == 0 {
                // every group of `rest` is either one of gs.skip(1) or t's own month,
                // and both come after gs[0]
                assert(r[j] == rest[j - 1]);
                if !tick_in_group(rest[j - 1], t) {
                    let w = choose|w: int|
                        0 <= w < gs.skip(1).len() && #[trigger] gs.skip(1)[w].year == rest[j
                            - 1].year && gs.skip(1)[w].month == rest[j - 1].month;
                    assert(gs.skip(1)[w] == gs[w + 1]);
                    assert(group_lt(gs[0], gs[w + 1]));
                }
                assert(group_lt(gs[0], rest[j - 1]));
            }
        }
    }
}

/// Every group after inserting is either an original group's month or `t`'s month.
proof fn lemma_insert_tick_months(gs: Seq<GroupModel>, t: Tick)
    ensures
        forall|j: int|
            0 <= j < insert_tick(gs, t).len() ==> (tick_in_group(insert_tick(gs, t)[j], t)
                || exists|i: int|
                0 <= i < gs.len() && #[trigger] gs[i].year == insert_tick(gs, t)[j].year
                    && gs[i].month == insert_tick(gs, t)[j].month),
    decreases gs.len(),
{
    if gs.len() == 0 {
    } else if tick_in_group(gs[0], t) {
    } else if tick_before_group(t, gs[0]) {
    } else {
        lemma_insert_tick_months(gs.skip(1), t);
        let r = insert_tick(gs, t);
        let rest = insert_tick(gs.skip(1), t);
        assert forall|j: int|
            0 <= j < r.len() implies (tick_in_group(r[j], t) || exists|i: int|
            0 <= i < gs.len() && #[trigger] gs[i].year == r[j].year && gs[i].month
                == r[j].month) by {
            if j == 0 {
                assert(gs[0].year == r[0].year && gs[0].month == r[0].month);
            } else {
                assert(r[j] == rest[j - 1]);
                if !tick_in_group(rest[j - 1], t) {
                    let i = choose|i: int|
                        0 <= i < gs.skip(1).len() && #[trigger] gs.skip(1)[i].year == rest[j
                            - 1].year && gs.skip(1)[i].month == rest[j - 1].month;
                    assert(gs[i + 1].year == r[j].year && gs[i + 1].month == r[j].month);
                }
            }
        }
    }
}

/// A built month grouping is well-formed.
pub proof fn lemma_build_groups_wf(s: Seq<Tick>)
    ensures
        groups_wf(build_groups(s)),
    decreases s.len(),
{
    if s.len() > 0 {
        lemma_build_groups_wf(s.drop_last());
        lemma_insert_tick_wf(build_groups(s.drop_last()), s.last());
    }
}

/// Inserting skips over every leading group whose month is past.
pub(crate) proof fn lemma_insert_tick_split(gs: Seq<GroupModel>, t: Tick, j: int)
    requires
        0 <= j <= gs.len(),
        forall|p: int| 0 <= p < j ==> tick_after_group(t, #[trigger] gs[p]),
    ensures
        insert_tick(gs, t) == gs.take(j) + insert_tick(gs.skip(j), t),
    decreases j,
{
    if j == 0 {
        assert(gs.skip(0) =~= gs);
        assert(gs.take(0) + insert_tick(gs, t) =~= insert_tick(gs, t));
    } else {
        assert(tick_after_group(t, gs[0]));
        assert forall|p: int| 0 <= p < j - 1 implies tick_after_group(
            t,
            #[trigger] gs.skip(1)[p],
        ) by {
            assert(gs.skip(1)[p] == gs[p + 1]);
        }
        lemma_insert_tick_split(gs.skip(1), t, j - 1);
        assert(gs.skip(1).skip(j - 1) =~= gs.skip(j));
        assert(seq![gs[0]] + (gs.skip(1).take(j - 1) + insert_tick(gs.skip(j), t)) =~= gs.take(j)
            + insert_tick(gs.skip(j), t));
    }
}

fn group_month_past(g: &MonthGroup, t: &Tick) -> (r: bool)
    ensures
        r == tick_after_group(*t, g@),
{
    g.year < t.date.year || (g.year == t.date.year && g.month < t.date.month)
}

fn same_group(g: &MonthGroup, t: &Tick) -> (r: bool)
    ensures
        r == tick_in_group(g@, *t),
{
    g.year == t.date.year && g.month == t.date.month
}

/// Adds one observation to the grouping, at its month's ordered place.
fn insert_group(groups: &mut Vec<MonthGroup>, t: Tick)
    ensures
        gview(final(groups)@) == insert_tick(gview(old(groups)@), t),
{
    let ghost gs = gview(groups@);
    let mut j: usize = 0;
    while j < groups.len() && group_month_past(&groups[j], &t)
        invariant
            groups@ == old(groups)@,
            gs == gview(groups@),
            j <= groups@.len(),
            forall|p: int| 0 <= p < j ==> tick_after_group(t, #[trigger] gs[p]),
        decreases groups@.len() - j,
    {
        proof {
            assert(gs[j as int] == groups@[j as int]@);
        }
        j = j + 1;
    }
    proof {
        lemma_insert_tick_split(gs, t, j as int);
    }
    if j < groups.len() && same_group(&groups[j], &t) {
        let mut g = groups.remove(j);
        g.ticks.push(t);
        let ghost g2 = g@;
        groups.insert(j, g);
        proof {
            assert(gs.skip(j as int)[0] == gs[j as int]);
            assert(g2 == (GroupModel {
                year: gs[j as int].year,
                month: gs[j as int].month,
                ticks: gs[j as int].ticks.push(t),
            }));
            assert(insert_tick(gs.skip(j as int), t) == seq![g2] + gs.skip(j as int).skip(1));
            assert(gview(groups@) =~= gs.take(j as int) + (seq![g2] + gs.skip(j as int).skip(1)))
                by {
                assert forall|i: int| 0 <= i < groups@.len() implies gview(groups@)[i] == (gs.take(
                    j as int,
                ) + (seq![g2] + gs.skip(j as int).skip(1)))[i] by {
                    if i < j {
                        assert(groups@[i] == old(groups)@[i]);
                    } else if i > j {
                        assert(groups@[i] == old(groups)@[i]);
                        assert(gs.skip(j as int).skip(1)[i - j - 1] == gs[i]);
                    }
                }
            }
        }
    } else {
        let g = MonthGroup { year: t.date.year, month: t.date.month, ticks: vec![t] };
        let ghost g2 = g@;
        groups.insert(j, g);
        proof {
            assert(g2 == singleton_group(t)) by {
                assert(g2.ticks =~= seq![t]);
            }
            if j == gs.len() {
                assert(gs.skip(j as int) =~= Seq::<GroupModel>::empty());
                assert(insert_tick(gs.skip(j as int), t) == seq![singleton_group(t)]);
            } else {
                assert(gs.skip(j as int)[0] == gs[j as int]);
                assert(!tick_in_group(gs[j as int], t));
                assert(!tick_after_group(t, gs[j as int]));
                assert(tick_before_group(t, gs[j as int]));
                assert(insert_tick(gs.skip(j as int), t) == seq![singleton_group(t)] + gs.skip(
                    j as int,
                ));
            }
            assert(gview(groups@) =~= gs.take(j as int) + insert_tick(gs.skip(j as int), t)) by {
                assert forall|i: int| 0 <= i < groups@.len() implies gview(groups@)[i] == (gs.take(
                    j as int,
                ) + insert_tick(gs.skip(j as int), t))[i] by {
                    if i < j {
                        assert(groups@[i] == old(groups)@[i]);
                    } else if i > j {
                        assert(groups@[i] == old(groups)@[i - 1]);
                        if j < gs.len() {
                            assert(gs.skip(j as int)[i - j - 1] == gs[i - 1]);
                        }
                    }
                }
            }
        }
    }
}

/// A price series grouped by calendar month.
#[derive(Debug)]
pub struct MonthlyTicker {
    pub ticks: Vec<MonthGroup>,
}

impl View for MonthlyTicker {
    type V = Seq<GroupModel>;

    open spec fn view(&self) -> Seq<GroupModel> {
        gview(self.ticks@)
    }
}

impl MonthlyTicker {
    /// Groups the series by (year, month) in one pass, keeping encounter
    /// order within each month.
    pub fn new(ticks: &Vec<Tick>) -> (r: Self)
        ensures
            r@ == build_groups(ticks@),
            groups_wf(r@),
    {
        let mut groups: Vec<MonthGroup> = Vec::new();
        proof {
            assert(gview(groups@) =~= build_groups(ticks@.take(0)));
        }
        let mut i: usize = 0;
        while i < ticks.len()
            invariant
                i <= ticks@.len(),
                gview(groups@) == build_groups(ticks@.take(i as int)),
            decreases ticks@.len() - i,
        {
            proof {
                assert(ticks@.take(i + 1).drop_last() =~= ticks@.take(i as int));
                assert(ticks@.take(i + 1).last() == ticks@[i as int]);
            }
            insert_group(&mut groups, ticks[i]);
            i = i + 1;
        }
        proof {
            assert(ticks@.take(ticks@.len() as int) =~= ticks@);
            lemma_build_groups_wf(ticks@);
        }
        MonthlyTicker { ticks: groups }
    }

    /// One observation per month: the first of each month.
    pub fn first_day_of_month(self) -> (r: Vec<Tick>)
        requires
            groups_wf(self@),
        ensures
            r@ == firsts_of(self@),
    {
        let mut out: Vec<Tick> = Vec::new();
        let mut i: usize = 0;
        while i < self.ticks.len()
            invariant
                i <= self.ticks@.len(),
                groups_wf(gview(self.ticks@)),
                out@ == firsts_of(gview(self.ticks@).take(i as int)),
            decreases self.ticks@.len() - i,
        {
            let g = &self.ticks[i];
            proof {
                assert(g@ == gview(self.ticks@)[i as int]);
            }
            out.push(g.ticks[0]);
            proof {
                assert(firsts_of(gview(self.ticks@).take(i + 1)) =~= firsts_of(
                    gview(self.ticks@).take(i as int),
                ).push(g@.ticks[0]));
            }
            i = i + 1;
        }
        proof {
            assert(gview(self.ticks@).take(self.ticks@.len() as int) =~= gview(self.ticks@));
        }
        out
    }

    /// One observation per month: the one at index `count / 2`, so an
    /// even-sized month yields the element just after its midpoint.
    pub fn middle_of_month(self) -> (r: Vec<Tick>)
        requires
            groups_wf(self@),
        ensures
            r@ == middles_of(self@),
    {
        let mut out: Vec<Tick> = Vec::new();
        let mut i: usize = 0;
        while i < self.ticks.len()
            invariant
                i <= self.ticks@.len(),
                groups_wf(gview(self.ticks@)),
                out@ == middles_of(gview(self.ticks@).take(i as int)),
            decreases self.ticks@.len() - i,
        {
            let g = &self.ticks[i];
            proof {
                assert(g@ == gview(self.ticks@)[i as int]);
            }
            let middle = g.ticks.len() / 2;
            out.push(g.ticks[middle]);
            proof {
                assert(middles_of(gview(self.ticks@).take(i + 1)) =~= middles_of(
                    gview(self.ticks@).take(i as int),
                ).push(g@.ticks[g@.ticks.len() as int / 2]));
            }
            i = i + 1;
        }
        proof {
            assert(gview(self.ticks@).take(self.ticks@.len() as int) =~= gview(self.ticks@));
        }
        out
    }

    /// One observation per month: the last of each month.
    pub fn last_day_of_month(self) -> (r: Vec<Tick>)
        requires
            groups_wf(self@),
        ensures
            r@ == lasts_of(self@),
    {
        let mut out: Vec<Tick> = Vec::new();
        let mut i: usize = 0;
        while i < self.ticks.len()
            invariant
                i <= self.ticks@.len(),
                groups_wf(gview(self.ticks@)),
                out@ == lasts_of(gview(self.ticks@).take(i as int)),
            decreases self.ticks@.len() - i,
        {
            let g = &self.ticks[i];
            proof {
                assert(g@ == gview(self.ticks@)[i as int]);
            }
            out.push(g.ticks[g.ticks.len() - 1]);
            proof {
                assert(lasts_of(gview(self.ticks@).take(i + 1)) =~= lasts_of(
                    gview(self.ticks@).take(i as int),
                ).push(g@.ticks.last()));
            }
            i = i + 1;
        }
        proof {
            assert(gview(self.ticks@).take(self.ticks@.len() as int) =~= gview(self.ticks@));
        }
        out
    }
}

/// The month index is built from the series value alone, with no hidden
/// mutation: equal series give equal groupings, and equal groupings give
/// equal representative series, so repeating a build and a selection
/// yields identical output both times.
pub proof fn lemma_representative_idempotent(s1: Seq<Tick>, s2: Seq<Tick>)
    requires
        s1 == s2,
    ensures
        build_groups(s1) == build_groups(s2),
        firsts_of(build_groups(s1)) == firsts_of(build_groups(s2)),
        middles_of(build_groups(s1)) == middles_of(build_groups(s2)),
        lasts_of(build_groups(s1)) == lasts_of(build_groups(s2)),
{
}

} // verus!
