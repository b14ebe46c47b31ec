use vstd::prelude::*;
use crate::calendar::{iso_week_monday_month, iso_week_start, months_between, YearMonth, MAX_YEAR, MIN_YEAR};
use crate::pattern::{name_date, Matcher, NamingConvention};

verus! {

/// Why a matched date part cannot be placed in the calendar.
#[derive(Clone, Copy, Debug, PartialEq, Eq, Structural)]
pub enum RangeError {
    /// A month outside 1..=12.
    MonthOutOfRange,
    /// A week outside 1..=53, or past the last ISO week of its year.
    WeekOutOfRange,
}

/// Months from the first-of-month anchor `(year, month)` to `reference`.
pub open spec fn age_from(reference: YearMonth, year: int, month: int) -> int {
    reference.ordinal() - (year * 12 + month - 1)
}

/// Age in months of a date part under `convention`, relative to `reference`.
pub open spec fn age_spec(
    convention: NamingConvention,
    year: int,
    part: int,
    reference: YearMonth,
) -> Result<int, RangeError> {
    match convention {
        NamingConvention::Month => if 1 <= part <= 12 {
            Ok(age_from(reference, year, part))
        } else {
            Err(RangeError::MonthOutOfRange)
        },
        NamingConvention::Week => if 1 <= part <= 53 {
            match iso_week_monday_month(year, part) {
                Some((y, m)) => Ok(age_from(reference, y as int, m as int)),
                None => Err(RangeError::WeekOutOfRange),
            }
        } else {
            Err(RangeError::WeekOutOfRange)
        },
    }
}

/// Whole months between the month of a matched date and `reference` (the first of
/// the current month). A week is placed at the month of its Monday.
pub fn age_in_months(
    convention: NamingConvention,
    year: i32,
    part: u32,
    reference: YearMonth,
) -> (r: Result<i32, RangeError>)
    requires
        reference.wf(),
        MIN_YEAR <= year <= MAX_YEAR,
    ensures
        match r {
            Ok(a) => age_spec(convention, year as int, part as int, reference) == Ok::<
                int,
                RangeError,
            >(a as int),
            Err(e) => age_spec(convention, year as int, part as int, reference) == Err::<
                int,
                RangeError,
            >(e),
        },
        convention == NamingConvention::Month ==> (r is Ok <==> 1 <= part <= 12),
        convention == NamingConvention::Week && MIN_YEAR < year && 1 <= part <= 52 ==> r is Ok,
{
    match convention {
        NamingConvention::Month => {
            if 1 <= part && part <= 12 {
                Ok(months_between(reference, YearMonth { year, month: part }))
            } else {
                Err(RangeError::MonthOutOfRange)
            }
        },
        NamingConvention::Week => {
            if !(1 <= part && part <= 53) {
                return Err(RangeError::WeekOutOfRange);
            }
            match iso_week_start(year, part) {
                Some(monday) => Ok(months_between(reference, monday)),
                None => Err(RangeError::WeekOutOfRange),
            }
        },
    }
}

/// A matched index name with its age in months.
#[derive(Debug)]
pub struct Candidate {
    pub name: String,
    pub age_months: i32,
}

impl View for Candidate {
    type V = (Seq<char>, int);

    open spec fn view(&self) -> (Seq<char>, int) {
        (self.name@, self.age_months as int)
    }
}

/// The names and ages of a sequence of candidates.
pub open spec fn entries(c: Seq<Candidate>) -> Seq<(Seq<char>, int)> {
    c.map_values(|x: Candidate| x@)
}

/// Entry `a` of `c` comes before entry `b` in a plan: smaller age, or equal age
/// and earlier position.
pub open spec fn sorts_before(c: Seq<(Seq<char>, int)>, a: int, b: int) -> bool {
    c[a].1 < c[b].1 || (c[a].1 == c[b].1 && a < b)
}

/// `plan` lists the entries of `c` at positions `idx`: exactly those whose age is at
/// least `threshold`, ordered by age and, among equal ages, by position in `c`.
pub open spec fn plan_at(
    c: Seq<(Seq<char>, int)>,
    threshold: int,
    plan: Seq<(Seq<char>, int)>,
    idx: Seq<int>,
) -> bool {
    &&& plan.len() == idx.len()
    &&& forall|k: int|
        0 <= k < idx.len() ==> 0 <= #[trigger] idx[k] < c.len() && c[idx[k]].1 >= threshold
            && plan[k] == c[idx[k]]
    &&& forall|k1: int, k2: int|
        0 <= k1 < k2 < idx.len() ==> sorts_before(c, #[trigger] idx[k1], #[trigger] idx[k2])
    &&& forall|j: int| 0 <= j < c.len() && #[trigger] c[j].1 >= threshold ==> idx.contains(j)
}

/// `plan` is the deletion plan of `c` for `threshold`: the entries aged at least
/// `threshold`, youngest first, ties in input order.
pub open spec fn is_plan(c: Seq<(Seq<char>, int)>, threshold: int, plan: Seq<(Seq<char>, int)>) -> bool {
    exists|idx: Seq<int>| plan_at(c, threshold, plan, idx)
}

fn copy_candidate(c: &Candidate) -> (r: Candidate)
    ensures
        r@ == c@,
{
    Candidate { name: c.name.clone(), age_months: c.age_months }
}

/// The candidates whose age is at least `threshold`, in ascending order of age;
/// candidates of equal age keep their order.
pub fn select_for_deletion(candidates: &Vec<Candidate>, threshold: i32) -> (r: Vec<Candidate>)
    ensures
        is_plan(entries(candidates@), threshold as int, entries(r@)),
{
    let ghost c = entries(candidates@);
    let mut out: Vec<Candidate> = Vec::new();
    let ghost mut idx: Seq<int> = Seq::empty();
    let n = candidates.len();
    let mut i: usize = 0;
    while i < n
        invariant
            n == candidates@.len(),
            c == entries(candidates@),
            i <= n,
            out@.len() == idx.len(),
            forall|k: int|
                0 <= k < idx.len() ==> 0 <= #[trigger] idx[k] < i && c[idx[k]].1 >= threshold
                    && out@[k]@ == c[idx[k]],
            forall|k1: int, k2: int|
                0 <= k1 < k2 < idx.len() ==> sorts_before(c, #[trigger] idx[k1], #[trigger] idx[k2]),
            forall|j: int| 0 <= j < i && #[trigger] c[j].1 >= threshold ==> idx.contains(j),
        decreases n - i,
    {
        let age = candidates[i].age_months;
        if age >= threshold {
            let mut pos: usize = 0;
            while pos < out.len() && out[pos].age_months <= age
                invariant
                    pos <= out@.len(),
                    out@.len() == idx.len(),
                    forall|k: int| 0 <= k < pos ==> #[trigger] out@[k].age_months <= age,
                decreases out@.len() - pos,
            {
                pos = pos + 1;
            }
            let item = copy_candidate(&candidates[i]);
            let ghost old_idx = idx;
            let ghost old_out = out@;
            out.insert(pos, item);
            proof {
                idx = old_idx.insert(pos as int, i as int);
                old_idx.insert_ensures(pos as int, i as int);
                old_out.insert_ensures(pos as int, item);
                assert(c[i as int] == candidates@[i as int]@);
                assert forall|k: int| pos <= k < old_idx.len() implies c[#[trigger] old_idx[k]].1
                    > age by {
                    if k > pos {
                        assert(sorts_before(c, old_idx[pos as int], old_idx[k]));
                    }
                }
                assert forall|k: int| 0 <= k < idx.len() implies 0 <= #[trigger] idx[k] < i + 1
                    && c[idx[k]].1 >= threshold && out@[k]@ == c[idx[k]] by {
                    if k < pos {
                        assert(idx[k] == old_idx[k]);
                    } else if k > pos {
                        assert(idx[k] == old_idx[k - 1]);
                    }
                }
                assert forall|k1: int, k2: int|
                    0 <= k1 < k2 < idx.len() implies sorts_before(
                    c,
                    #[trigger] idx[k1],
                    #[trigger] idx[k2],
                ) by {
                    if k1 < pos && k2 < pos {
                        assert(sorts_before(c, old_idx[k1], old_idx[k2]));
                    } else if k1 < pos && k2 == pos {
                        assert(out@[k1].age_months <= age);
                        assert(old_out[k1]@ == c[old_idx[k1]]);
                    } else if k1 < pos {
                        assert(sorts_before(c, old_idx[k1], old_idx[k2 - 1]));
                    } else if k1 == pos {
                        assert(c[old_idx[k2 - 1]].1 > age);
                    } else {
                        assert(sorts_before(c, old_idx[k1 - 1], old_idx[k2 - 1]));
                    }
                }
                assert forall|j: int| 0 <= j < i + 1 && #[trigger] c[j].1 >= threshold implies idx.contains(
                    j,
                ) by {
                    if j == i {
                        assert(idx[pos as int] == j);
                    } else {
                        assert(old_idx.contains(j));
                        let k = choose|k: int| 0 <= k < old_idx.len() && old_idx[k] == j;
                        if k < pos {
                            assert(idx[k] == j);
                        } else {
                            assert(idx[k + 1] == j);
                        }
                    }
                }
            }
        } else {
            proof {
                assert(c[i as int] == candidates@[i as int]@);
            }
        }
        i = i + 1;
    }
    proof {
        assert(plan_at(c, threshold as int, entries(out@), idx));
    }
    out
}

/// Two plans of the same candidates list the same positions at each place.
proof fn lemma_positions_agree(
    c: Seq<(Seq<char>, int)>,
    threshold: int,
    plan_a: Seq<(Seq<char>, int)>,
    plan_b: Seq<(Seq<char>, int)>,
    pos_a: Seq<int>,
    pos_b: Seq<int>,
    k: int,
)
    requires
        plan_at(c, threshold, plan_a, pos_a),
        plan_at(c, threshold, plan_b, pos_b),
        0 <= k < pos_a.len(),
        k < pos_b.len(),
    ensures
        pos_a[k] == pos_b[k],
    decreases k,
{
    assert forall|m: int| 0 <= m < k implies pos_a[m] == pos_b[m] by {
        lemma_positions_agree(c, threshold, plan_a, plan_b, pos_a, pos_b, m);
    }
    let a = pos_a[k];
    let b = pos_b[k];
    assert(c[a].1 >= threshold);
    assert(c[b].1 >= threshold);
    assert(pos_b.contains(a));
    assert(pos_a.contains(b));
    let at_b = choose|m: int| 0 <= m < pos_b.len() && pos_b[m] == a;
    let at_a = choose|m: int| 0 <= m < pos_a.len() && pos_a[m] == b;
    if at_b < k {
        assert(sorts_before(c, pos_a[at_b], pos_a[k]));
    }
    if at_a < k {
        assert(sorts_before(c, pos_b[at_a], pos_b[k]));
    }
    if at_b > k && at_a > k {
        assert(sorts_before(c, pos_b[k], pos_b[at_b]));
        assert(sorts_before(c, pos_a[k], pos_a[at_a]));
    }
}

/// A plan is determined by the candidates and the threshold: selecting twice from
/// the same candidates with the same threshold yields the same plan.
pub proof fn lemma_plan_unique(
    c: Seq<(Seq<char>, int)>,
    threshold: int,
    plan_a: Seq<(Seq<char>, int)>,
    plan_b: Seq<(Seq<char>, int)>,
)
    requires
        is_plan(c, threshold, plan_a),
        is_plan(c, threshold, plan_b),
    ensures
        plan_a == plan_b,
{
    let pos_a = choose|idx: Seq<int>| plan_at(c, threshold, plan_a, idx);
    let pos_b = choose|idx: Seq<int>| plan_at(c, threshold, plan_b, idx);
    assert forall|k: int| 0 <= k < pos_a.len() && k < pos_b.len() implies pos_a[k] == pos_b[k] by {
        lemma_positions_agree(c, threshold, plan_a, plan_b, pos_a, pos_b, k);
    }
    if pos_a.len() > pos_b.len() {
        let n = pos_b.len() as int;
        assert(c[pos_a[n]].1 >= threshold);
        assert(pos_b.contains(pos_a[n]));
        let m = choose|m: int| 0 <= m < pos_b.len() && pos_b[m] == pos_a[n];
        assert(sorts_before(c, pos_a[m], pos_a[n]));
    }
    if pos_b.len() > pos_a.len() {
        let n = pos_a.len() as int;
        assert(c[pos_b[n]].1 >= threshold);
        assert(pos_a.contains(pos_b[n]));
        let m = choose|m: int| 0 <= m < pos_a.len() && pos_a[m] == pos_b[n];
        assert(sorts_before(c, pos_b[m], pos_b[n]));
    }
    assert(pos_a.len() == pos_b.len());
    assert forall|k: int| 0 <= k < plan_a.len() implies plan_a[k] == plan_b[k] by {
        assert(pos_a[k] == pos_b[k]);
        assert(plan_a[k] == c[pos_a[k]]);
        assert(plan_b[k] == c[pos_b[k]]);
    }
    assert(plan_a =~= plan_b);
}

/// Under the month convention, a later calendar month is never older: for a fixed
/// reference, the age does not grow as the candidate's (year, month) moves forward.
pub proof fn lemma_month_age_non_increasing(
    reference: YearMonth,
    year1: int,
    month1: int,
    year2: int,
    month2: int,
)
    requires
        1 <= month1 <= 12,
        1 <= month2 <= 12,
        year1 < year2 || (year1 == year2 && month1 <= month2),
    ensures
        age_spec(NamingConvention::Month, year1, month1, reference) is Ok,
        age_spec(NamingConvention::Month, year2, month2, reference) is Ok,
        age_spec(NamingConvention::Month, year2, month2, reference)->Ok_0 <= age_spec(
            NamingConvention::Month,
            year1,
            month1,
            reference,
        )->Ok_0,
{
}

/// The characters of each name.
pub open spec fn name_views(names: Seq<String>) -> Seq<Seq<char>> {
    names.map_values(|s: String| s@)
}

/// The names that match the convention and whose date lies in the calendar, each
/// with its age relative to `reference`, in listing order.
pub open spec fn assessed(
    convention: NamingConvention,
    prefix: Seq<char>,
    names: Seq<Seq<char>>,
    reference: YearMonth,
) -> Seq<(Seq<char>, int)>
    decreases names.len(),
{
    if names.len() == 0 {
        Seq::empty()
    } else {
        let rest = assessed(convention, prefix, names.drop_last(), reference);
        let name = names.last();
        match name_date(convention, prefix, name) {
            Some((y, part)) => match age_spec(convention, y, part, reference) {
                Ok(a) => rest.push((name, a)),
                Err(_) => rest,
            },
            None => rest,
        }
    }
}

/// Matches each name and computes its age; names that do not match, or whose
/// month or week is out of range, are left out.
pub fn assess_names(matcher: &Matcher, names: &Vec<String>, reference: YearMonth) -> (r: Vec<
    Candidate,
>)
    requires
        reference.wf(),
    ensures
        entries(r@) == assessed(matcher.convention, matcher.prefix@, name_views(names@), reference),
{
    let ghost all = name_views(names@);
    let mut out: Vec<Candidate> = Vec::new();
    let mut i: usize = 0;
    while i < names.len()
        invariant
            i <= names@.len(),
            all == name_views(names@),
            reference.wf(),
            entries(out@) == assessed(
                matcher.convention,
                matcher.prefix@,
                all.subrange(0, i as int),
                reference,
            ),
        decreases names@.len() - i,
    {
        let name = &names[i];
        assert(all.subrange(0, i + 1 as int).drop_last() == all.subrange(0, i as int));
        assert(all.subrange(0, i + 1 as int).last() == name@);
        if let Some((year, part)) = matcher.match_name(name.as_str()) {
            if let Ok(age) = age_in_months(matcher.convention, year, part, reference) {
                let item = Candidate { name: name.clone(), age_months: age };
                let ghost before = out@;
                out.push(item);
                assert(entries(out@) =~= entries(before).push(item@));
            }
        }
        i = i + 1;
    }
    assert(all.subrange(0, names@.len() as int) == all);
    out
}

/// The deletion plan for a listing of index names: the names that match and are at
/// least `threshold` months old, youngest first, ties in listing order.
pub fn plan_deletions(
    matcher: &Matcher,
    names: &Vec<String>,
    reference: YearMonth,
    threshold: i32,
) -> (r: Vec<Candidate>)
    requires
        reference.wf(),
    ensures
        is_plan(
            assessed(matcher.convention, matcher.prefix@, name_views(names@), reference),
            threshold as int,
            entries(r@),
        ),
{
    let candidates = assess_names(matcher, names, reference);
    select_for_deletion(&candidates, threshold)
}

} // verus!
