use vstd::prelude::*;
use crate::text::opt_view;
use crate::normalize::{regex_capture, year_from_capture, year_of, RELEASE_PATTERN};
use crate::record::{Cell, CellView};
use crate::load::views;
use crate::normalize::first_capture;

verus! {

/// A record lists exactly one sensor: it has a sensor list without a comma.
pub open spec fn single_sensor(c: CellView) -> bool {
    match c.features_sensors {
        Some(s) => !s.contains(','),
        None => false,
    }
}

pub open spec fn count_single_sensor(s: Seq<CellView>) -> nat
    decreases s.len(),
{
    if s.len() == 0 {
        0
    } else {
        count_single_sensor(s.drop_last()) + if single_sensor(s.last()) {
            1nat
        } else {
            0nat
        }
    }
}

/// Number of records with exactly one listed sensor.
pub fn single_feature_sensors(cells: &Vec<Cell>) -> (r: usize)
    ensures
        r == count_single_sensor(views(cells@)),
{
    let n = cells.len();
    let mut count: usize = 0;
    let mut i: usize = 0;
    while i < n
        invariant
            n == cells@.len(),
            i <= n,
            count <= i,
            count == count_single_sensor(views(cells@).take(i as int)),
        decreases n - i,
    {
        proof {
            assert(views(cells@).take(i + 1).drop_last() =~= views(cells@).take(i as int));
        }
        let one = match &cells[i].features_sensors {
            None => false,
            Some(s) => !has_comma(s.as_str()),
        };
        if one {
            count += 1;
        }
        i += 1;
    }
    assert(views(cells@).take(n as int) =~= views(cells@));
    count
}

fn has_comma(s: &str) -> (r: bool)
    ensures
        r == s@.contains(','),
{
    let n = s.unicode_len();
    let mut i: usize = 0;
    while i < n
        invariant
            n == s@.len(),
            i <= n,
            forall|j: int| 0 <= j < i ==> s@[j] != ',',
        decreases n - i,
    {
        if s.get_char(i) == ',' {
            return true;
        }
        i += 1;
    }
    false
}

/// Years after this one count as launches.
pub const LAUNCH_YEAR_FLOOR: i32 = 1999;

pub open spec fn launched_in(c: CellView, y: i32) -> bool {
    c.launch_announced == Some(y)
}

pub open spec fn year_count(s: Seq<CellView>, y: i32) -> nat
    decreases s.len(),
{
    if s.len() == 0 {
        0
    } else {
        year_count(s.drop_last(), y) + if launched_in(s.last(), y) {
            1nat
        } else {
            0nat
        }
    }
}

/// A record whose announcement year is after the floor.
pub open spec fn counts_as_launch(c: CellView) -> bool {
    c.launch_announced is Some && c.launch_announced->Some_0 > LAUNCH_YEAR_FLOOR
}

/// `(y, n)` is the answer for `s`: among the years after the floor, `y` has
/// the most records, `n` of them, and no earlier year has as many.
pub open spec fn is_peak_year(s: Seq<CellView>, y: i32, n: nat) -> bool {
    &&& y > LAUNCH_YEAR_FLOOR
    &&& n == year_count(s, y)
    &&& exists|j: int| 0 <= j < s.len() && launched_in(#[trigger] s[j], y)
    &&& forall|j: int|
        0 <= j < s.len() && #[trigger] counts_as_launch(s[j]) ==> {
            let z = s[j].launch_announced->Some_0;
            year_count(s, z) < n || (year_count(s, z) == n && z >= y)
        }
}

fn count_year(cells: &Vec<Cell>, y: i32) -> (r: usize)
    ensures
        r == year_count(views(cells@), y),
{
    let n = cells.len();
    let mut count: usize = 0;
    let mut i: usize = 0;
    while i < n
        invariant
            n == cells@.len(),
            i <= n,
            count <= i,
            count == year_count(views(cells@).take(i as int), y),
        decreases n - i,
    {
        proof {
            assert(views(cells@).take(i + 1).drop_last() =~= views(cells@).take(i as int));
        }
        if cells[i].launch_announced == Some(y) {
            count += 1;
        }
        i += 1;
    }
    assert(views(cells@).take(n as int) =~= views(cells@));
    count
}

/// The year after the floor in which most records were announced, with
/// their number; the earliest such year on a tie; `None` where no record
/// was announced after the floor.
pub fn most_launched_year(cells: &Vec<Cell>) -> (r: Option<(i32, usize)>)
    ensures
        match r {
            Some((y, n)) => is_peak_year(views(cells@), y, n as nat),
            None => forall|j: int|
                0 <= j < cells@.len() ==> !counts_as_launch(#[trigger] views(cells@)[j]),
        },
{
    let ghost s = views(cells@);
    let n = cells.len();
    let mut best: Option<(i32, usize)> = None;
    let mut i: usize = 0;
    while i < n
        invariant
            n == cells@.len(),
            s == views(cells@),
            i <= n,
            match best {
                Some((y, k)) => {
                    &&& y > LAUNCH_YEAR_FLOOR
                    &&& k == year_count(s, y)
                    &&& exists|j: int| 0 <= j < s.len() && launched_in(#[trigger] s[j], y)
                    &&& forall|j: int|
                        0 <= j < i && #[trigger] counts_as_launch(s[j]) ==> {
                            let z = s[j].launch_announced->Some_0;
                            year_count(s, z) < k || (year_count(s, z) == k && z >= y)
                        }
                },
                None => forall|j: int| 0 <= j < i ==> !counts_as_launch(#[trigger] s[j]),
            },
        decreases n - i,
    {
        assert(s[i as int] == cells@[i as int]@);
        if let Some(z) = cells[i].launch_announced {
            if z > LAUNCH_YEAR_FLOOR {
                let k = count_year(cells, z);
                let better = match best {
                    None => true,
                    Some((y, bk)) => k > bk || (k == bk && z < y),
                };
                if better {
                    proof {
                        assert(launched_in(s[i as int], z));
                    }
                    best = Some((z, k));
                }
            }
        }
        i += 1;
    }
    best
}

/// A record announced in one year and, by its status, released in another.
pub struct YearMismatch {
    pub oem: String,
    pub model: String,
    pub announced: i32,
    pub released: i32,
}

/// The release year that a status text gives (`Released <yyyy>`).
pub open spec fn release_year(status: Seq<char>) -> Option<i32> {
    year_of(regex_capture(RELEASE_PATTERN@, status, 1))
}

/// The mismatch that a record shows, if it has a maker, a model, an
/// announcement year and a release year that differs from it.
pub open spec fn mismatch_of(c: CellView) -> Option<(Seq<char>, Seq<char>, i32, i32)> {
    match (c.oem, c.model, c.launch_announced, c.launch_status) {
        (Some(o), Some(m), Some(a), Some(st)) => match release_year(st) {
            Some(r) => if r != a {
                Some((o, m, a, r))
            } else {
                None
            },
            None => None,
        },
        _ => None,
    }
}

pub open spec fn mismatch_view(m: YearMismatch) -> (Seq<char>, Seq<char>, i32, i32) {
    (m.oem@, m.model@, m.announced, m.released)
}

/// The mismatches of the records, in order.
pub open spec fn mismatches(s: Seq<CellView>) -> Seq<(Seq<char>, Seq<char>, i32, i32)>
    decreases s.len(),
{
    if s.len() == 0 {
        Seq::empty()
    } else {
        match mismatch_of(s.last()) {
            Some(m) => mismatches(s.drop_last()).push(m),
            None => mismatches(s.drop_last()),
        }
    }
}

/// The records announced in one year and released in another, in order.
pub fn announced_and_released_diff_year(cells: &Vec<Cell>) -> (r: Vec<YearMismatch>)
    ensures
        r@.map_values(|m: YearMismatch| mismatch_view(m)) == mismatches(views(cells@)),
{
    let ghost s = views(cells@);
    let n = cells.len();
    let mut out: Vec<YearMismatch> = Vec::new();
    let mut i: usize = 0;
    while i < n
        invariant
            n == cells@.len(),
            s == views(cells@),
            i <= n,
            out@.map_values(|m: YearMismatch| mismatch_view(m)) == mismatches(s.take(i as int)),
        decreases n - i,
    {
        proof {
            assert(s.take(i + 1).drop_last() =~= s.take(i as int));
            assert(s.take(i + 1).last() == cells@[i as int]@);
        }
        let c = &cells[i];
        match (&c.oem, &c.model, c.launch_announced, &c.launch_status) {
            (Some(o), Some(m), Some(a), Some(st)) => {
                let released = year_from_capture(first_capture(RELEASE_PATTERN, st.as_str(), 1));
                match released {
                    Some(r) => {
                        if r != a {
                            let ghost before = out@;
                            out.push(
                                YearMismatch {
                                    oem: o.as_str().to_owned(),
                                    model: m.as_str().to_owned(),
                                    announced: a,
                                    released: r,
                                },
                            );
                            assert(out@.map_values(|m: YearMismatch| mismatch_view(m))
                                =~= before.map_values(|m: YearMismatch| mismatch_view(m)).push(
                                (o@, m@, a, r),
                            ));
                        }
                    },
                    None => {},
                }
            },
            _ => {},
        }
        i += 1;
    }
    assert(s.take(n as int) =~= s);
    out
}

} // verus!
