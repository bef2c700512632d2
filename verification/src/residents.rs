use vstd::prelude::*;

use crate::names::{get_random_name, to_uppercase, is_random_name, spec_to_uppercase};
use crate::text::{push_decimal, decimal_int};

verus! {

/// One resident of the building, as listed on the dashboard.
#[derive(Clone, Debug)]
pub struct Resident {
    pub name: String,
    pub apartment: String,
    pub floor: String,
}

/// What a resident shows: its three texts.
pub struct ResidentView {
    pub name: Seq<char>,
    pub apartment: Seq<char>,
    pub floor: Seq<char>,
}

impl View for Resident {
    type V = ResidentView;

    open spec fn view(&self) -> ResidentView {
        ResidentView { name: self.name@, apartment: self.apartment@, floor: self.floor@ }
    }
}

/// The residents of one floor, under the floor's Roman numeral.
#[derive(Clone, Debug)]
pub struct Residents {
    pub floor: String,
    pub residents: Vec<Resident>,
}

/// A floor of the building and how many apartments it holds.
pub struct Floor {
    pub floor: u8,
    pub resident_amount: u8,
}

/// The letter in front of every apartment number.
pub const APARTMENT_PREFIX: &'static str = "D";

/// The number of apartments in the building.
pub const RESIDENTS_AMOUNT: u8 = 39;

/// The Roman numeral of a floor number from 1 to 10.
pub open spec fn roman_numeral(n: u8) -> Seq<char> {
    if n == 1 { "I"@ }
    else if n == 2 { "II"@ }
    else if n == 3 { "III"@ }
    else if n == 4 { "IV"@ }
    else if n == 5 { "V"@ }
    else if n == 6 { "VI"@ }
    else if n == 7 { "VII"@ }
    else if n == 8 { "VIII"@ }
    else if n == 9 { "IX"@ }
    else { "X"@ }
}

impl Floor {
    /// The Roman numeral of this floor.
    pub fn floor_as_roman(&self) -> (r: &'static str)
        requires
            1 <= self.floor <= 10,
        ensures
            r@ == roman_numeral(self.floor),
    {
        match self.floor {
            1 => "I",
            2 => "II",
            3 => "III",
            4 => "IV",
            5 => "V",
            6 => "VI",
            7 => "VII",
            8 => "VIII",
            9 => "IX",
            _ => "X",
        }
    }
}

/// The floors that have apartments, from the top down: (floor, apartments on it).
pub open spec fn floor_plan() -> Seq<(u8, u8)> {
    seq![(6u8, 8u8), (5u8, 8u8), (4u8, 8u8), (3u8, 8u8), (2u8, 7u8)]
}

/// The number of apartments on the floors from index `k` of the plan down to the lowest.
pub open spec fn apartments_from(k: int) -> int
    decreases floor_plan().len() - k,
{
    if 0 <= k < floor_plan().len() {
        floor_plan()[k].1 + apartments_from(k + 1)
    } else {
        0
    }
}

/// The scan that `get_resident_floor` makes over the plan from index `k` down: the first
/// floor whose apartment number exceeds the count of the apartments below that floor.
spec fn floor_scan(a: int, k: int) -> Seq<char>
    decreases floor_plan().len() - k,
{
    if 0 <= k < floor_plan().len() {
        if a > apartments_from(k + 1) {
            roman_numeral(floor_plan()[k].0)
        } else {
            floor_scan(a, k + 1)
        }
    } else {
        Seq::empty()
    }
}

/// Apartment `a` is among those of floor `k` of the plan: above the apartments of the lower
/// floors and within the count of the apartments from floor `k` down.
pub open spec fn apartment_on_floor(a: int, k: int) -> bool {
    0 <= k < floor_plan().len() && apartments_from(k + 1) < a <= apartments_from(k)
}

/// The index in the plan of the floor whose apartments include apartment `a`.
pub open spec fn floor_index_of(a: int) -> int {
    choose|k: int| #[trigger] apartment_on_floor(a, k)
}

/// The floor (its Roman numeral) of apartment `a`: none for a number below 1, the top floor
/// for a number above all apartments, else the floor whose apartments include it.
pub open spec fn floor_of_apartment(a: int) -> Seq<char> {
    if a < 1 {
        Seq::empty()
    } else if a > RESIDENTS_AMOUNT {
        roman_numeral(floor_plan()[0].0)
    } else {
        roman_numeral(floor_plan()[floor_index_of(a)].0)
    }
}

/// The floors of the building, from the top down.
pub fn residents_floors() -> (r: Vec<Floor>)
    ensures
        r.len() == floor_plan().len(),
        forall|k: int| 0 <= k < r.len() ==> r[k].floor == #[trigger] floor_plan()[k].0
            && r[k].resident_amount == floor_plan()[k].1,
{
    let mut r: Vec<Floor> = Vec::new();
    r.push(Floor { floor: 6, resident_amount: 8 });
    r.push(Floor { floor: 5, resident_amount: 8 });
    r.push(Floor { floor: 4, resident_amount: 8 });
    r.push(Floor { floor: 3, resident_amount: 8 });
    r.push(Floor { floor: 2, resident_amount: 7 });
    r
}

proof fn lemma_apartments_from_values()
    ensures
        apartments_from(0) == 39,
        apartments_from(1) == 31,
        apartments_from(2) == 23,
        apartments_from(3) == 15,
        apartments_from(4) == 7,
        apartments_from(5) == 0,
{
    reveal_with_fuel(apartments_from, 7);
}

/// The floor of an apartment, as the Roman numeral of the floor; empty for apartment 0.
#[verifier::spinoff_prover]
pub fn get_resident_floor(apartment_number: u8) -> (r: String)
    ensures
        r@ == floor_of_apartment(apartment_number as int),
{
    let floors = residents_floors();
    let mut remaining: u8 = RESIDENTS_AMOUNT;
    let mut i: usize = 0;
    proof {
        lemma_apartments_from_values();
        lemma_scan_is_floor(apartment_number as int);
    }
    while i < floors.len()
        invariant
            floors.len() == floor_plan().len(),
            forall|k: int| 0 <= k < floors.len() ==> floors[k].floor == #[trigger] floor_plan()[k].0
                && floors[k].resident_amount == floor_plan()[k].1,
            0 <= i <= floors.len(),
            remaining == apartments_from(i as int),
            floor_of_apartment(apartment_number as int)
                == floor_scan(apartment_number as int, i as int),
        decreases floors.len() - i,
    {
        proof {
            lemma_apartments_from_values();
            assert(floors[i as int].floor == floor_plan()[i as int].0);
            assert(apartments_from(i as int) == floor_plan()[i as int].1 + apartments_from(i + 1));
        }
        remaining = remaining - floors[i].resident_amount;
        if apartment_number > remaining {
            return String::from_str(floors[i].floor_as_roman());
        }
        i += 1;
    }
    String::new()
}


/// Keeps the residents whose floor is `floor`.
pub open spec fn on_floor(floor: Seq<char>) -> spec_fn(ResidentView) -> bool {
    |v: ResidentView| v.floor == floor
}

/// The views of a sequence of residents.
pub open spec fn resident_views(s: Seq<Resident>) -> Seq<ResidentView> {
    s.map_values(|r: Resident| r@)
}

fn duplicate(r: &Resident) -> (c: Resident)
    ensures
        c@ == r@,
{
    Resident { name: r.name.clone(), apartment: r.apartment.clone(), floor: r.floor.clone() }
}

/// Groups residents by floor, one group for each floor of the building from the top down;
/// each group keeps, in their order, the residents whose floor is that floor's numeral.
pub fn group_residents_by_floor(residents: &Vec<Resident>) -> (r: Vec<Residents>)
    ensures
        r.len() == floor_plan().len(),
        forall|k: int| 0 <= k < r.len() ==> (#[trigger] r[k]).floor@ == roman_numeral(floor_plan()[k].0),
        forall|k: int| 0 <= k < r.len() ==> resident_views((#[trigger] r[k]).residents@)
            == resident_views(residents@).filter(on_floor(roman_numeral(floor_plan()[k].0))),
{
    let floors = residents_floors();
    let ghost views = resident_views(residents@);
    let mut out: Vec<Residents> = Vec::new();
    let mut k: usize = 0;
    while k < floors.len()
        invariant
            floors.len() == floor_plan().len(),
            forall|q: int| 0 <= q < floors.len() ==> floors[q].floor == #[trigger] floor_plan()[q].0
                && floors[q].resident_amount == floor_plan()[q].1,
            views == resident_views(residents@),
            0 <= k <= floors.len(),
            out.len() == k,
            forall|q: int| 0 <= q < k ==> (#[trigger] out[q]).floor@ == roman_numeral(floor_plan()[q].0),
            forall|q: int| 0 <= q < k ==> resident_views((#[trigger] out[q]).residents@)
                == views.filter(on_floor(roman_numeral(floor_plan()[q].0))),
        decreases floors.len() - k,
    {
        assert(floor_plan()[k as int].0 == floors[k as int].floor);
        let floor_roman = String::from_str(floors[k].floor_as_roman());
        let ghost pred = on_floor(roman_numeral(floor_plan()[k as int].0));
        let mut floor_residents: Vec<Resident> = Vec::new();
        let mut j: usize = 0;
        while j < residents.len()
            invariant
                views == resident_views(residents@),
                floor_roman@ == roman_numeral(floor_plan()[k as int].0),
                pred == on_floor(roman_numeral(floor_plan()[k as int].0)),
                0 <= j <= residents.len(),
                resident_views(floor_residents@) == views.take(j as int).filter(pred),
            decreases residents.len() - j,
        {
            proof {
                assert(views.take(j + 1) =~= views.take(j as int).push(views[j as int]));
                views.take(j as int).lemma_filter_push(views[j as int], pred);
            }
            if residents[j].floor == floor_roman {
                let c = duplicate(&residents[j]);
                floor_residents.push(c);
                assert(resident_views(floor_residents@) =~= views.take(j as int).filter(pred).push(views[j as int]));
            }
            j += 1;
        }
        assert(views.take(residents.len() as int) =~= views);
        out.push(Residents { floor: floor_roman, residents: floor_residents });
        k += 1;
    }
    out
}

/// When a predicate holds of exactly the elements at positions `lo..hi`, filtering by it
/// keeps that block.
pub(crate) proof fn lemma_filter_block<A>(s: Seq<A>, p: spec_fn(A) -> bool, lo: int, hi: int)
    requires
        0 <= lo <= hi <= s.len(),
        forall|i: int| 0 <= i < s.len() ==> (p(#[trigger] s[i]) <==> lo <= i < hi),
    ensures
        s.filter(p) == s.subrange(lo, hi),
    decreases s.len(),
{
    reveal(Seq::filter);
    if s.len() == 0 {
        assert(s.subrange(lo, hi) =~= s);
    } else {
        let n = s.len() - 1;
        let t = s.drop_last();
        let lo2 = if lo < n { lo } else { n };
        let hi2 = if hi < n { hi } else { n };
        assert forall|i: int| 0 <= i < t.len() implies (p(#[trigger] t[i]) <==> lo2 <= i < hi2) by {
            assert(t[i] == s[i]);
        }
        lemma_filter_block(t, p, lo2, hi2);
        if p(s.last()) {
            assert(s.subrange(lo, hi) =~= t.subrange(lo2, hi2).push(s.last()));
        } else {
            assert(s.subrange(lo, hi) =~= t.subrange(lo2, hi2));
        }
    }
}

/// The apartment at place `m` (from 0) of floor `k` of the plan in the listing: the floor's
/// apartments come from the highest number down.
pub open spec fn listing_apartment(k: int, m: int) -> int {
    apartments_from(k) - m
}

/// The text of apartment `a`: the prefix followed by the number.
pub open spec fn apartment_label(a: int) -> Seq<char> {
    APARTMENT_PREFIX@ + decimal_int(a)
}

/// A name as the resident list shows it: a random name in capitals.
pub open spec fn is_listed_name(n: Seq<char>) -> bool {
    exists|m: Seq<char>| is_random_name(m) && n == #[trigger] spec_to_uppercase(m)
}

/// Apartment `a` (from 1 up to the number of apartments) lies within the apartments of
/// exactly one floor of the plan, `floor_index_of(a)`.
proof fn lemma_floor_index(a: int)
    requires
        1 <= a <= RESIDENTS_AMOUNT,
    ensures
        0 <= floor_index_of(a) < floor_plan().len(),
        apartments_from(floor_index_of(a) + 1) < a <= apartments_from(floor_index_of(a)),
{
    lemma_apartments_from_values();
    let q: int = if a > 31 { 0 } else if a > 23 { 1 } else if a > 15 { 2 } else if a > 7 { 3 } else { 4 };
    assert(apartment_on_floor(a, q));
}

proof fn lemma_plan_floors()
    ensures
        forall|k: int| 0 <= k < floor_plan().len() ==> #[trigger] floor_plan()[k].0 == 6 - k,
{
    assert forall|k: int| 0 <= k < floor_plan().len() implies #[trigger] floor_plan()[k].0 == 6 - k by {
        if k == 0 {} else if k == 1 {} else if k == 2 {} else if k == 3 {} else {}
    }
}

/// The scan of `get_resident_floor` finds the floor of every apartment number.
proof fn lemma_scan_is_floor(a: int)
    ensures
        floor_scan(a, 0) == floor_of_apartment(a),
{
    lemma_apartments_from_values();
    reveal_with_fuel(floor_scan, 6);
    if 1 <= a <= RESIDENTS_AMOUNT {
        lemma_floor_index(a);
        let q: int = if a > 31 { 0 } else if a > 23 { 1 } else if a > 15 { 2 } else if a > 7 { 3 } else { 4 };
        let k = floor_index_of(a);
        assert(k == q) by {
            if k < q {
                assert(apartments_from(k + 1) >= apartments_from(q));
            } else if k > q {
                assert(apartments_from(k) <= apartments_from(q + 1));
            }
        }
    }
}

/// Apartment `a` (from 1 up to the number of apartments) is on floor `k` of the plan exactly
/// when it lies above the apartments of the lower floors and within those of floor `k`.
proof fn lemma_floor_ranges(a: int, k: int)
    requires
        1 <= a <= RESIDENTS_AMOUNT,
        0 <= k < floor_plan().len(),
    ensures
        floor_of_apartment(a) == roman_numeral(floor_plan()[k].0)
            <==> apartments_from(k + 1) < a <= apartments_from(k),
{
    lemma_apartments_from_values();
    lemma_floor_index(a);
    lemma_plan_floors();
    let q = floor_index_of(a);
    assert(floor_of_apartment(a) == roman_numeral(floor_plan()[q].0));
    if k != q {
        lemma_roman_numerals_distinct(floor_plan()[k].0, floor_plan()[q].0);
        assert(!(apartments_from(k + 1) < a <= apartments_from(k))) by {
            if k < q {
                assert(apartments_from(k + 1) >= apartments_from(q));
            } else {
                assert(apartments_from(k) <= apartments_from(q + 1));
            }
        }
    }
}

/// The residents of the building grouped by floor, from the top floor down. Each floor lists
/// its apartments from the highest number down, each with a random name in capitals.
pub fn get_residents() -> (r: Vec<Residents>)
    ensures
        r.len() == floor_plan().len(),
        forall|k: int| 0 <= k < r.len() ==> (#[trigger] r[k]).floor@ == roman_numeral(floor_plan()[k].0)
            && r[k].residents.len() == floor_plan()[k].1,
        forall|k: int, m: int| 0 <= k < r.len() && 0 <= m < r[k].residents.len() ==> {
            let v = (#[trigger] r[k].residents[m])@;
            &&& v.apartment == apartment_label(listing_apartment(k, m))
            &&& v.floor == roman_numeral(floor_plan()[k].0)
            &&& is_listed_name(v.name)
        },
{
    let mut residents: Vec<Resident> = Vec::with_capacity(RESIDENTS_AMOUNT as usize);
    let mut index: u8 = RESIDENTS_AMOUNT;
    while index >= 1
        invariant
            0 <= index <= RESIDENTS_AMOUNT,
            residents.len() == RESIDENTS_AMOUNT - index,
            forall|i: int| 0 <= i < residents.len() ==> {
                let v = (#[trigger] residents[i])@;
                &&& v.apartment == apartment_label(RESIDENTS_AMOUNT - i)
                &&& v.floor == floor_of_apartment(RESIDENTS_AMOUNT - i)
                &&& is_listed_name(v.name)
            },
        decreases index,
    {
        let random = get_random_name();
        let name = to_uppercase(random.as_str());
        let floor = get_resident_floor(index);
        let mut apartment = String::from_str(APARTMENT_PREFIX);
        push_decimal(&mut apartment, index as u64);
        residents.push(Resident { name, apartment, floor });
        index -= 1;
    }
    let groups = group_residents_by_floor(&residents);
    let ghost views = resident_views(residents@);
    assert forall|k: int| 0 <= k < groups.len() implies resident_views((#[trigger] groups[k]).residents@)
        == views.subrange(RESIDENTS_AMOUNT - apartments_from(k), RESIDENTS_AMOUNT - apartments_from(k + 1)) by {
        lemma_apartments_from_values();
        assert(apartments_from(k + 1) <= apartments_from(k)) by {
            reveal_with_fuel(apartments_from, 2);
        }
        let pred = on_floor(roman_numeral(floor_plan()[k].0));
        assert forall|i: int| 0 <= i < views.len() implies (pred(#[trigger] views[i])
            <==> RESIDENTS_AMOUNT - apartments_from(k) <= i < RESIDENTS_AMOUNT - apartments_from(k + 1)) by {
            assert(views[i] == residents[i]@);
            lemma_floor_ranges(RESIDENTS_AMOUNT - i, k);
        }
        lemma_filter_block(views, pred, RESIDENTS_AMOUNT - apartments_from(k), RESIDENTS_AMOUNT - apartments_from(k + 1));
    }
    assert forall|k: int, m: int| 0 <= k < groups.len() && 0 <= m < groups[k].residents.len() implies {
            let v = (#[trigger] groups[k].residents[m])@;
            &&& v.apartment == apartment_label(listing_apartment(k, m))
            &&& v.floor == roman_numeral(floor_plan()[k].0)
            &&& is_listed_name(v.name)
        } by {
        lemma_apartments_from_values();
        reveal_with_fuel(apartments_from, 2);
        let i = RESIDENTS_AMOUNT - apartments_from(k) + m;
        assert(resident_views(groups[k].residents@).len() == groups[k].residents@.len());
        assert(resident_views(groups[k].residents@)[m] == groups[k].residents[m]@);
        assert(views[i] == residents[i]@);
        lemma_floor_ranges(RESIDENTS_AMOUNT - i, k);
    }
    assert forall|k: int| 0 <= k < groups.len() implies (#[trigger] groups[k]).residents.len() == floor_plan()[k].1 by {
        lemma_apartments_from_values();
        reveal_with_fuel(apartments_from, 2);
        assert(resident_views(groups[k].residents@).len() == groups[k].residents@.len());
    }
    groups
}

/// Different floors (1 to 10) have different Roman numerals.
pub proof fn lemma_roman_numerals_distinct(a: u8, b: u8)
    requires
        1 <= a <= 10,
        1 <= b <= 10,
        a != b,
    ensures
        roman_numeral(a) != roman_numeral(b),
{
    reveal_strlit("I");
    reveal_strlit("II");
    reveal_strlit("III");
    reveal_strlit("IV");
    reveal_strlit("V");
    reveal_strlit("VI");
    reveal_strlit("VII");
    reveal_strlit("VIII");
    reveal_strlit("IX");
    reveal_strlit("X");
    if roman_numeral(a) == roman_numeral(b) {
        assert(roman_numeral(a).len() == roman_numeral(b).len());
        assert(roman_numeral(a)[0] == roman_numeral(b)[0]);
        assert(roman_numeral(a).len() >= 2 ==> roman_numeral(a)[1] == roman_numeral(b)[1]);
        assert(roman_numeral(a).len() >= 3 ==> roman_numeral(a)[2] == roman_numeral(b)[2]);
    }
}

/// The floors of the plan together hold all the apartments of the building.
pub proof fn lemma_floors_hold_all_apartments()
    ensures
        apartments_from(0) == RESIDENTS_AMOUNT,
        forall|k: int| 0 <= k < floor_plan().len() ==> apartments_from(k) - apartments_from(k + 1)
            == (#[trigger] floor_plan()[k]).1,
{
    lemma_apartments_from_values();
    reveal_with_fuel(apartments_from, 2);
}

/// Each apartment from 1 to the number of apartments is on exactly one floor of the plan: the
/// floor `k` whose apartments, counted from the lowest floor up, include it. Apartment 0 is on
/// no floor, and an apartment numbered above all is on the top floor.
pub proof fn lemma_apartment_floor(a: int, k: int)
    requires
        0 <= k < floor_plan().len(),
    ensures
        1 <= a <= RESIDENTS_AMOUNT ==> (floor_of_apartment(a) == roman_numeral(floor_plan()[k].0)
            <==> apartments_from(k + 1) < a <= apartments_from(k)),
        a <= 0 ==> floor_of_apartment(a) == Seq::<char>::empty(),
        a > RESIDENTS_AMOUNT ==> floor_of_apartment(a) == roman_numeral(floor_plan()[0].0),
{
    if 1 <= a <= RESIDENTS_AMOUNT {
        lemma_floor_ranges(a, k);
    }
}

/// The listing of `get_residents` names every apartment once: apartment `a` (1 to the number
/// of apartments) stands on floor `k` at place `m` exactly when `k` and `m` are the floor of
/// `a` and its distance from that floor's highest apartment.
pub proof fn lemma_listing_places_each_apartment_once(a: int)
    requires
        1 <= a <= RESIDENTS_AMOUNT,
    ensures
        exists|k: int, m: int| 0 <= k < floor_plan().len() && 0 <= m < floor_plan()[k].1
            && #[trigger] listing_apartment(k, m) == a && floor_of_apartment(a) == roman_numeral(floor_plan()[k].0),
        forall|k1: int, m1: int, k2: int, m2: int|
            0 <= k1 < floor_plan().len() && 0 <= m1 < floor_plan()[k1].1
            && 0 <= k2 < floor_plan().len() && 0 <= m2 < floor_plan()[k2].1
            && #[trigger] listing_apartment(k1, m1) == a && #[trigger] listing_apartment(k2, m2) == a
            ==> k1 == k2 && m1 == m2,
{
    lemma_apartments_from_values();
    lemma_floors_hold_all_apartments();
    let k: int = if a > 31 { 0 } else if a > 23 { 1 } else if a > 15 { 2 } else if a > 7 { 3 } else { 4 };
    lemma_floor_ranges(a, k);
    let m = apartments_from(k) - a;
    assert(floor_plan()[k].1 == apartments_from(k) - apartments_from(k + 1));
    assert(0 <= k < floor_plan().len() && 0 <= m < floor_plan()[k].1
        && listing_apartment(k, m) == a && floor_of_apartment(a) == roman_numeral(floor_plan()[k].0));
    assert forall|k1: int, m1: int, k2: int, m2: int|
        0 <= k1 < floor_plan().len() && 0 <= m1 < floor_plan()[k1].1
        && 0 <= k2 < floor_plan().len() && 0 <= m2 < floor_plan()[k2].1
        && #[trigger] listing_apartment(k1, m1) == a && #[trigger] listing_apartment(k2, m2) == a
        implies k1 == k2 && m1 == m2 by {
        assert(floor_plan()[k1].1 == apartments_from(k1) - apartments_from(k1 + 1));
        assert(floor_plan()[k2].1 == apartments_from(k2) - apartments_from(k2 + 1));
    }
}

/// Each floor of the plan holds as many of the apartments 1 to the number of apartments as the
/// plan gives it, and every such apartment is on one of the floors of the plan.
pub proof fn lemma_apartments_per_floor(k: int)
    requires
        0 <= k < floor_plan().len(),
    ensures
        Set::new(|a: int| 1 <= a <= RESIDENTS_AMOUNT && floor_of_apartment(a) == roman_numeral(floor_plan()[k].0)).finite(),
        Set::new(|a: int| 1 <= a <= RESIDENTS_AMOUNT && floor_of_apartment(a) == roman_numeral(floor_plan()[k].0)).len()
            == floor_plan()[k].1,
        forall|a: int| 1 <= a <= RESIDENTS_AMOUNT ==> exists|q: int| 0 <= q < floor_plan().len()
            && #[trigger] floor_of_apartment(a) == roman_numeral(floor_plan()[q].0),
{
    lemma_floors_hold_all_apartments();
    lemma_apartments_from_values();
    reveal_with_fuel(apartments_from, 2);
    let on_k = Set::new(|a: int| 1 <= a <= RESIDENTS_AMOUNT && floor_of_apartment(a) == roman_numeral(floor_plan()[k].0));
    let range = vstd::set_lib::set_int_range(apartments_from(k + 1) + 1, apartments_from(k) + 1);
    assert forall|a: int| on_k.contains(a) <==> range.contains(a) by {
        if 1 <= a <= RESIDENTS_AMOUNT {
            lemma_floor_ranges(a, k);
        }
    }
    assert(on_k =~= range);
    vstd::set_lib::lemma_int_range(apartments_from(k + 1) + 1, apartments_from(k) + 1);
    assert forall|a: int| 1 <= a <= RESIDENTS_AMOUNT implies exists|q: int| 0 <= q < floor_plan().len()
        && #[trigger] floor_of_apartment(a) == roman_numeral(floor_plan()[q].0) by {
        let q: int = if a > 31 { 0 } else if a > 23 { 1 } else if a > 15 { 2 } else if a > 7 { 3 } else { 4 };
        lemma_floor_ranges(a, q);
    }
}

/// Only a floor's number decides its numeral: two floors with the same number (whatever their
/// apartment counts) may both be asked for their numeral, or neither, and give the same one.
pub proof fn lemma_floor_numeral_depends_on_number_only(f1: Floor, f2: Floor)
    requires
        f1.floor == f2.floor,
    ensures
        (1 <= f1.floor <= 10) == (1 <= f2.floor <= 10),
        roman_numeral(f1.floor) == roman_numeral(f2.floor),
{
}

} // verus!
