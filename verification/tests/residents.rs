use housing_dashboard::names::{common_names, compose_name, get_random_name};
use housing_dashboard::residents::{
    get_resident_floor, get_residents, group_residents_by_floor, residents_floors, Floor, Resident,
    APARTMENT_PREFIX, RESIDENTS_AMOUNT,
};

fn floor_roman(floor: u8) -> &'static str {
    Floor { floor, resident_amount: 0 }.floor_as_roman()
}

#[test]
fn floor_as_roman_gives_each_numeral() {
    let expected = ["I", "II", "III", "IV", "V", "VI", "VII", "VIII", "IX", "X"];
    for (i, numeral) in expected.iter().enumerate() {
        assert_eq!(floor_roman(i as u8 + 1), *numeral);
    }
}

#[test]
fn residents_floors_from_the_top_down() {
    let floors = residents_floors();
    let plan: Vec<(u8, u8)> = floors.iter().map(|f| (f.floor, f.resident_amount)).collect();
    assert_eq!(plan, vec![(6, 8), (5, 8), (4, 8), (3, 8), (2, 7)]);
    let total: u32 = floors.iter().map(|f| f.resident_amount as u32).sum();
    assert_eq!(total, RESIDENTS_AMOUNT as u32);
}

#[test]
fn get_resident_floor_by_apartment_ranges() {
    assert_eq!(get_resident_floor(0), "");
    for a in 1..=7u8 {
        assert_eq!(get_resident_floor(a), "II");
    }
    for a in 8..=15u8 {
        assert_eq!(get_resident_floor(a), "III");
    }
    for a in 16..=23u8 {
        assert_eq!(get_resident_floor(a), "IV");
    }
    for a in 24..=31u8 {
        assert_eq!(get_resident_floor(a), "V");
    }
    for a in 32..=39u8 {
        assert_eq!(get_resident_floor(a), "VI");
    }
    assert_eq!(get_resident_floor(40), "VI");
    assert_eq!(get_resident_floor(255), "VI");
}

#[test]
fn each_apartment_is_on_exactly_one_floor() {
    let floors = residents_floors();
    for floor in &floors {
        let numeral = floor.floor_as_roman();
        let count = (1..=RESIDENTS_AMOUNT).filter(|a| get_resident_floor(*a) == numeral).count();
        assert_eq!(count, floor.resident_amount as usize);
    }
}

fn is_random_name(name: &str) -> bool {
    let names = common_names();
    if names.contains(&name) {
        return true;
    }
    for a in &names {
        for b in &names {
            if a != b {
                for sep in ["-", " "] {
                    if name == format!("{}{}{}", a, sep, b) {
                        return true;
                    }
                }
            }
        }
    }
    false
}

#[test]
fn common_names_list() {
    let names = common_names();
    assert_eq!(names.len(), 32);
    assert_eq!(names[0], "Virtanen");
    assert_eq!(names[3], "Mäkinen");
    assert_eq!(names[31], "Ahonen");
}

#[test]
fn get_random_name_is_one_or_two_common_names() {
    let mut saw_single = false;
    let mut saw_double = false;
    for _ in 0..400 {
        let name = get_random_name();
        assert!(is_random_name(&name), "unexpected name {}", name);
        if common_names().contains(&name.as_str()) {
            saw_single = true;
        } else {
            saw_double = true;
        }
    }
    assert!(saw_single && saw_double);
}

#[test]
fn get_residents_groups_apartments_by_floor() {
    let groups = get_residents();
    let floors: Vec<&str> = groups.iter().map(|g| g.floor.as_str()).collect();
    assert_eq!(floors, vec!["VI", "V", "IV", "III", "II"]);
    let upper_names: Vec<String> = common_names().iter().map(|n| n.to_uppercase()).collect();
    let mut expected_apartment = RESIDENTS_AMOUNT;
    for group in &groups {
        for resident in &group.residents {
            assert_eq!(resident.apartment, format!("{}{}", APARTMENT_PREFIX, expected_apartment));
            assert_eq!(resident.floor, group.floor);
            assert_eq!(resident.floor, get_resident_floor(expected_apartment));
            assert!(upper_names.iter().any(|n| resident.name.starts_with(n.as_str())));
            assert_eq!(resident.name, resident.name.to_uppercase());
            expected_apartment -= 1;
        }
    }
    assert_eq!(expected_apartment, 0);
    let sizes: Vec<usize> = groups.iter().map(|g| g.residents.len()).collect();
    assert_eq!(sizes, vec![8, 8, 8, 8, 7]);
}

fn resident(name: &str, apartment: &str, floor: &str) -> Resident {
    Resident { name: name.to_string(), apartment: apartment.to_string(), floor: floor.to_string() }
}

#[test]
fn group_residents_by_floor_keeps_order_and_drops_unknown_floors() {
    let residents = vec![
        resident("A", "D9", "III"),
        resident("B", "D33", "VI"),
        resident("C", "D8", "III"),
        resident("D", "D99", "X"),
        resident("E", "D1", "II"),
    ];
    let groups = group_residents_by_floor(&residents);
    assert_eq!(groups.len(), 5);
    let names = |k: usize| groups[k].residents.iter().map(|r| r.name.clone()).collect::<Vec<_>>();
    assert_eq!(groups[0].floor, "VI");
    assert_eq!(names(0), vec!["B"]);
    assert_eq!(groups[1].floor, "V");
    assert!(names(1).is_empty());
    assert!(names(2).is_empty());
    assert_eq!(groups[3].floor, "III");
    assert_eq!(names(3), vec!["A", "C"]);
    assert_eq!(groups[3].residents[1].apartment, "D8");
    assert_eq!(names(4), vec!["E"]);
}

#[test]
fn compose_name_from_drawn_values() {
    assert_eq!(compose_name(0, false, 30, true), "Virtanen");
    assert_eq!(compose_name(31, false, 0, false), "Ahonen");
    assert_eq!(compose_name(0, true, 0, true), "Virtanen-Korhonen");
    assert_eq!(compose_name(1, true, 0, false), "Korhonen Virtanen");
    assert_eq!(compose_name(1, true, 1, true), "Korhonen-Mallinkainen");
    assert_eq!(compose_name(31, true, 30, true), "Ahonen-Lahtinen");
    assert_eq!(compose_name(3, true, 2, false), "Mäkinen Mallinkainen");
    assert_eq!(compose_name(3, true, 3, false), "Mäkinen Nieminen");
    let names = common_names();
    for first in 0..32 {
        let others: Vec<&str> = names.iter().copied().filter(|n| *n != names[first]).collect();
        assert_eq!(others.len(), 31);
        for second in 0..31 {
            assert_eq!(compose_name(first, true, second, true), format!("{}-{}", names[first], others[second]));
        }
    }
}
