use vstd::prelude::*;
use crate::residents::lemma_filter_block;
use rand::Rng;

verus! {

/// The family names that residents are given.
pub open spec fn common_names_spec() -> Seq<Seq<char>> {
    seq![
        "Virtanen"@, "Korhonen"@, "Mallinkainen"@, "Mäkinen"@, "Nieminen"@, "Mäkelä"@,
        "Hämäläinen"@, "Laine"@, "Häkkinen"@, "Koskinen"@, "Kovalainen"@, "Järvinen"@,
        "Lehtonen"@, "Lehtinen"@, "Saarinen"@, "Salminen"@, "Heinonen"@, "Niemi"@,
        "Heikkilä"@, "Kinnunen"@, "Salonen"@, "Turunen"@, "Salo"@, "Laitinen"@,
        "Tuominen"@, "Rantanen"@, "Karjalainen"@, "Jokinen"@, "Mattila"@, "Savolainen"@,
        "Lahtinen"@, "Ahonen"@,
    ]
}

/// One of the common family names.
pub open spec fn is_common_name(s: Seq<char>) -> bool {
    common_names_spec().contains(s)
}

/// The two ways of joining a double-barrelled name.
pub open spec fn is_name_separator(s: Seq<char>) -> bool {
    s == "-"@ || s == " "@
}

/// A name that `get_random_name` can give: one common name, or two different ones
/// joined by a hyphen or a space.
pub open spec fn is_random_name(s: Seq<char>) -> bool {
    ||| is_common_name(s)
    ||| exists|a: Seq<char>, sep: Seq<char>, b: Seq<char>|
        #![trigger is_common_name(a), is_name_separator(sep), is_common_name(b)]
        is_common_name(a) && is_name_separator(sep) && is_common_name(b) && a != b
            && s == a + sep + b
}

/// The texts of a sequence of names.
pub open spec fn name_views(s: Seq<&'static str>) -> Seq<Seq<char>> {
    s.map_values(|n: &'static str| n@)
}

/// The family names that residents are given, in a fixed order.
pub fn common_names() -> (r: Vec<&'static str>)
    ensures
        name_views(r@) == common_names_spec(),
{
    let r: Vec<&'static str> = vec![
        "Virtanen", "Korhonen", "Mallinkainen", "Mäkinen", "Nieminen", "Mäkelä",
        "Hämäläinen", "Laine", "Häkkinen", "Koskinen", "Kovalainen", "Järvinen",
        "Lehtonen", "Lehtinen", "Saarinen", "Salminen", "Heinonen", "Niemi",
        "Heikkilä", "Kinnunen", "Salonen", "Turunen", "Salo", "Laitinen",
        "Tuominen", "Rantanen", "Karjalainen", "Jokinen", "Mattila", "Savolainen",
        "Lahtinen", "Ahonen",
    ];
    assert(name_views(r@) =~= common_names_spec());
    r
}

/// `Rng::gen_range(0..bound)` of `rand`, with the thread's random generator: an index
/// below `bound` picked at random (the range must not be empty). Which index comes back is
/// chance and is not stated.
#[verifier::external_body]
fn random_index(bound: usize) -> (r: usize)
    requires
        0 < bound,
    ensures
        r < bound,
{
    rand::thread_rng().gen_range(0..bound)
}

/// `Rng::gen_ratio` of `rand`, with the thread's random generator: `true` with probability
/// `numerator / denominator`. Its documentation promises `false` for a zero numerator and
/// `true` when the numerator equals the denominator; any other outcome is chance.
#[verifier::external_body]
fn random_ratio(numerator: u32, denominator: u32) -> (r: bool)
    requires
        0 < denominator,
        numerator <= denominator,
    ensures
        numerator == 0 ==> !r,
        numerator == denominator ==> r,
{
    rand::thread_rng().gen_ratio(numerator, denominator)
}

/// What `str::to_uppercase` gives for a text (Unicode upper-casing).
pub uninterp spec fn spec_to_uppercase(s: Seq<char>) -> Seq<char>;

/// `str::to_uppercase` of std: the text upper-cased by Unicode's rules, named by
/// `spec_to_uppercase` and not spelled out.
#[verifier::external_body]
pub(crate) fn to_uppercase(s: &str) -> (r: String)
    ensures
        r@ == spec_to_uppercase(s@),
{
    s.to_uppercase()
}

/// The separator of a double-barrelled name: a hyphen or a space.
pub open spec fn separator(hyphen: bool) -> Seq<char> {
    if hyphen { "-"@ } else { " "@ }
}

/// Keeps the names other than `name`.
pub open spec fn differs_from(name: Seq<char>) -> spec_fn(Seq<char>) -> bool {
    |n: Seq<char>| n != name
}

/// The name made of the drawn values: common name `first`, or, when `double`, that name,
/// the separator and name `second` among the other common names.
pub open spec fn composed_name(first: int, double: bool, second: int, hyphen: bool) -> Seq<char> {
    if !double {
        common_names_spec()[first]
    } else {
        common_names_spec()[first] + separator(hyphen) + common_names_spec().remove(first)[second]
    }
}

/// Since the common names are all different, leaving out those equal to name `i` leaves out
/// exactly position `i`.
proof fn lemma_others_are_remove(i: int)
    requires
        0 <= i < common_names_spec().len(),
    ensures
        common_names_spec().filter(differs_from(common_names_spec()[i])) == common_names_spec().remove(i),
{
    let n = common_names_spec();
    let p = differs_from(n[i]);
    let a = n.take(i);
    let b = n.skip(i + 1);
    assert(n =~= a + seq![n[i]] + b);
    assert forall|k: int| 0 <= k < a.len() implies (p(#[trigger] a[k]) <==> 0 <= k < a.len()) by {
        lemma_common_names_distinct(k, i);
    }
    assert forall|k: int| 0 <= k < b.len() implies (p(#[trigger] b[k]) <==> 0 <= k < b.len()) by {
        lemma_common_names_distinct(i + 1 + k, i);
    }
    lemma_filter_block(a, p, 0, a.len() as int);
    lemma_filter_block(b, p, 0, b.len() as int);
    assert(a.subrange(0, a.len() as int) =~= a);
    assert(b.subrange(0, b.len() as int) =~= b);
    Seq::filter_distributes_over_add(a + seq![n[i]], b, p);
    Seq::filter_distributes_over_add(a, seq![n[i]], p);
    Seq::<Seq<char>>::empty().lemma_filter_push(n[i], p);
    reveal(Seq::filter);
    assert(Seq::<Seq<char>>::empty().push(n[i]) =~= seq![n[i]]);
    assert(seq![n[i]].filter(p) =~= Seq::<Seq<char>>::empty());
    assert(n.remove(i) =~= a + b);
    assert(a + Seq::<Seq<char>>::empty() =~= a);
}

/// The name that the drawn values give: common name `first` alone, or, when `double`, joined
/// by a hyphen (when `hyphen`) or a space to name `second` of the other 31 common names,
/// which keep their order.
pub fn compose_name(first: usize, double: bool, second: usize, hyphen: bool) -> (r: String)
    requires
        first < 32,
        second < 31,
    ensures
        r@ == composed_name(first as int, double, second as int, hyphen),
{
    let names = common_names();
    let ghost views = name_views(names@);
    assert(names@.len() == views.len() && views.len() == 32);
    let first_name: &'static str = names[first];
    assert(views[first as int] == first_name@);
    if !double {
        return String::from_str(first_name);
    }
    let first_owned = String::from_str(first_name);
    let ghost p = differs_from(first_name@);
    let mut others: Vec<&'static str> = Vec::new();
    let mut i: usize = 0;
    proof {
        reveal(Seq::filter);
        assert(name_views(others@) =~= views.take(0).filter(p));
    }
    while i < names.len()
        invariant
            0 <= i <= names.len(),
            views == name_views(names@),
            views == common_names_spec(),
            first_owned@ == first_name@,
            p == differs_from(first_name@),
            name_views(others@) == views.take(i as int).filter(p),
        decreases names.len() - i,
    {
        let candidate = String::from_str(names[i]);
        proof {
            assert(views[i as int] == names@[i as int]@);
            assert(views.take(i + 1) =~= views.take(i as int).push(views[i as int]));
            views.take(i as int).lemma_filter_push(views[i as int], p);
        }
        if !(candidate == first_owned) {
            others.push(names[i]);
            assert(name_views(others@) =~= views.take(i as int).filter(p).push(views[i as int]));
        }
        i += 1;
    }
    proof {
        assert(views.take(32) =~= views);
        lemma_others_are_remove(first as int);
        assert(name_views(others@).len() == others@.len());
    }
    let second_name: &'static str = others[second];
    assert(name_views(others@)[second as int] == second_name@);
    let sep: &'static str = if hyphen { "-" } else { " " };
    let mut r = String::from_str(first_name);
    r.append(sep);
    r.append(second_name);
    r
}

/// Every name made of valid drawn values is one common name, or two different common names
/// joined by a hyphen or a space.
pub proof fn lemma_composed_name_is_random_name(first: int, double: bool, second: int, hyphen: bool)
    requires
        0 <= first < 32,
        0 <= second < 31,
    ensures
        is_random_name(composed_name(first, double, second, hyphen)),
{
    let n = common_names_spec();
    assert(is_common_name(n[first]));
    if double {
        let j = if second < first { second } else { second + 1 };
        assert(n.remove(first)[second] == n[j]);
        lemma_common_names_distinct(first, j);
        assert(is_common_name(n[j]));
        assert(is_name_separator(separator(hyphen)));
        assert(composed_name(first, double, second, hyphen) == n[first] + separator(hyphen) + n[j]);
    }
}

/// A random resident name: a random common name, or (with a chance of 54 in 100) that name
/// joined by a hyphen or a space (even odds) to a random one of the other common names.
pub fn get_random_name() -> (r: String)
    ensures
        exists|first: int, double: bool, second: int, hyphen: bool|
            0 <= first < 32 && 0 <= second < 31 && r@ == #[trigger] composed_name(first, double, second, hyphen),
        is_random_name(r@),
{
    let names = common_names();
    assert(name_views(names@).len() == names@.len());
    let first = random_index(names.len());
    if !random_ratio(54, 100) {
        let r = compose_name(first, false, 0, false);
        proof { lemma_composed_name_is_random_name(first as int, false, 0, false); }
        return r;
    }
    let second = random_index(names.len() - 1);
    let hyphen = random_ratio(1, 2);
    let r = compose_name(first, true, second, hyphen);
    proof { lemma_composed_name_is_random_name(first as int, true, second as int, hyphen); }
    r
}

/// The position of a common name in the list, told by its length and its second, third and
/// fifth letters (32 for a text that matches no common name this way).
spec fn name_position(s: Seq<char>) -> int {
    if s.len() == 8 && s[1] == 'i' && s[2] == 'r' && s[4] == 'a' { 0 } else
    if s.len() == 8 && s[1] == 'o' && s[2] == 'r' && s[4] == 'o' { 1 } else
    if s.len() == 12 && s[1] == 'a' && s[2] == 'l' && s[4] == 'i' { 2 } else
    if s.len() == 7 && s[1] == 'ä' && s[2] == 'k' && s[4] == 'n' { 3 } else
    if s.len() == 8 && s[1] == 'i' && s[2] == 'e' && s[4] == 'i' { 4 } else
    if s.len() == 6 && s[1] == 'ä' && s[2] == 'k' && s[4] == 'l' { 5 } else
    if s.len() == 10 && s[1] == 'ä' && s[2] == 'm' && s[4] == 'l' { 6 } else
    if s.len() == 5 && s[1] == 'a' && s[2] == 'i' && s[4] == 'e' { 7 } else
    if s.len() == 8 && s[1] == 'ä' && s[2] == 'k' && s[4] == 'i' { 8 } else
    if s.len() == 8 && s[1] == 'o' && s[2] == 's' && s[4] == 'i' { 9 } else
    if s.len() == 10 && s[1] == 'o' && s[2] == 'v' && s[4] == 'l' { 10 } else
    if s.len() == 8 && s[1] == 'ä' && s[2] == 'r' && s[4] == 'i' { 11 } else
    if s.len() == 8 && s[1] == 'e' && s[2] == 'h' && s[4] == 'o' { 12 } else
    if s.len() == 8 && s[1] == 'e' && s[2] == 'h' && s[4] == 'i' { 13 } else
    if s.len() == 8 && s[1] == 'a' && s[2] == 'a' && s[4] == 'i' { 14 } else
    if s.len() == 8 && s[1] == 'a' && s[2] == 'l' && s[4] == 'i' { 15 } else
    if s.len() == 8 && s[1] == 'e' && s[2] == 'i' && s[4] == 'o' { 16 } else
    if s.len() == 5 && s[1] == 'i' && s[2] == 'e' && s[4] == 'i' { 17 } else
    if s.len() == 8 && s[1] == 'e' && s[2] == 'i' && s[4] == 'k' { 18 } else
    if s.len() == 8 && s[1] == 'i' && s[2] == 'n' && s[4] == 'u' { 19 } else
    if s.len() == 7 && s[1] == 'a' && s[2] == 'l' && s[4] == 'n' { 20 } else
    if s.len() == 7 && s[1] == 'u' && s[2] == 'r' && s[4] == 'n' { 21 } else
    if s.len() == 4 && s[1] == 'a' && s[2] == 'l' { 22 } else
    if s.len() == 8 && s[1] == 'a' && s[2] == 'i' && s[4] == 'i' { 23 } else
    if s.len() == 8 && s[1] == 'u' && s[2] == 'o' && s[4] == 'i' { 24 } else
    if s.len() == 8 && s[1] == 'a' && s[2] == 'n' && s[4] == 'a' { 25 } else
    if s.len() == 11 && s[1] == 'a' && s[2] == 'r' && s[4] == 'a' { 26 } else
    if s.len() == 7 && s[1] == 'o' && s[2] == 'k' && s[4] == 'n' { 27 } else
    if s.len() == 7 && s[1] == 'a' && s[2] == 't' && s[4] == 'i' { 28 } else
    if s.len() == 10 && s[1] == 'a' && s[2] == 'v' && s[4] == 'l' { 29 } else
    if s.len() == 8 && s[1] == 'a' && s[2] == 'h' && s[4] == 'i' { 30 } else
    if s.len() == 6 && s[1] == 'h' && s[2] == 'o' && s[4] == 'e' { 31 } else { 32 }
}

/// The common names are all different.
pub proof fn lemma_common_names_distinct(i: int, j: int)
    requires
        0 <= i < common_names_spec().len(),
        0 <= j < common_names_spec().len(),
        i != j,
    ensures
        common_names_spec()[i] != common_names_spec()[j],
{
    lemma_name_position(i);
    lemma_name_position(j);
}

proof fn lemma_name_position(i: int)
    requires
        0 <= i < common_names_spec().len(),
    ensures
        name_position(common_names_spec()[i]) == i,
{
    reveal_strlit("Virtanen");
    reveal_strlit("Korhonen");
    reveal_strlit("Mallinkainen");
    reveal_strlit("Mäkinen");
    reveal_strlit("Nieminen");
    reveal_strlit("Mäkelä");
    reveal_strlit("Hämäläinen");
    reveal_strlit("Laine");
    reveal_strlit("Häkkinen");
    reveal_strlit("Koskinen");
    reveal_strlit("Kovalainen");
    reveal_strlit("Järvinen");
    reveal_strlit("Lehtonen");
    reveal_strlit("Lehtinen");
    reveal_strlit("Saarinen");
    reveal_strlit("Salminen");
    reveal_strlit("Heinonen");
    reveal_strlit("Niemi");
    reveal_strlit("Heikkilä");
    reveal_strlit("Kinnunen");
    reveal_strlit("Salonen");
    reveal_strlit("Turunen");
    reveal_strlit("Salo");
    reveal_strlit("Laitinen");
    reveal_strlit("Tuominen");
    reveal_strlit("Rantanen");
    reveal_strlit("Karjalainen");
    reveal_strlit("Jokinen");
    reveal_strlit("Mattila");
    reveal_strlit("Savolainen");
    reveal_strlit("Lahtinen");
    reveal_strlit("Ahonen");
    let n = common_names_spec();
    assert(i == 0 ==> name_position(n[i]) == 0);
    assert(i == 1 ==> name_position(n[i]) == 1);
    assert(i == 2 ==> name_position(n[i]) == 2);
    assert(i == 3 ==> name_position(n[i]) == 3);
    assert(i == 4 ==> name_position(n[i]) == 4);
    assert(i == 5 ==> name_position(n[i]) == 5);
    assert(i == 6 ==> name_position(n[i]) == 6);
    assert(i == 7 ==> name_position(n[i]) == 7);
    assert(i == 8 ==> name_position(n[i]) == 8);
    assert(i == 9 ==> name_position(n[i]) == 9);
    assert(i == 10 ==> name_position(n[i]) == 10);
    assert(i == 11 ==> name_position(n[i]) == 11);
    assert(i == 12 ==> name_position(n[i]) == 12);
    assert(i == 13 ==> name_position(n[i]) == 13);
    assert(i == 14 ==> name_position(n[i]) == 14);
    assert(i == 15 ==> name_position(n[i]) == 15);
    assert(i == 16 ==> name_position(n[i]) == 16);
    assert(i == 17 ==> name_position(n[i]) == 17);
    assert(i == 18 ==> name_position(n[i]) == 18);
    assert(i == 19 ==> name_position(n[i]) == 19);
    assert(i == 20 ==> name_position(n[i]) == 20);
    assert(i == 21 ==> name_position(n[i]) == 21);
    assert(i == 22 ==> name_position(n[i]) == 22);
    assert(i == 23 ==> name_position(n[i]) == 23);
    assert(i == 24 ==> name_position(n[i]) == 24);
    assert(i == 25 ==> name_position(n[i]) == 25);
    assert(i == 26 ==> name_position(n[i]) == 26);
    assert(i == 27 ==> name_position(n[i]) == 27);
    assert(i == 28 ==> name_position(n[i]) == 28);
    assert(i == 29 ==> name_position(n[i]) == 29);
    assert(i == 30 ==> name_position(n[i]) == 30);
    assert(i == 31 ==> name_position(n[i]) == 31);
}

} // verus!
