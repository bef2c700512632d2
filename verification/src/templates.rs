use vstd::prelude::*;

verus! {

/// The housing company whose dashboard this is.
#[derive(Clone, Debug)]
pub struct HousingCompany {
    pub name: String,
    pub address: String,
}

/// The housing company shown on the dashboard: Portus Novus, Capellanranta 3 D.
pub fn housing_company() -> (r: HousingCompany)
    ensures
        r.name@ == "Portus Novus"@,
        r.address@ == "Capellanranta 3 D"@,
{
    HousingCompany {
        name: String::from_str("Portus Novus"),
        address: String::from_str("Capellanranta 3 D"),
    }
}

} // verus!
