//! Names, colours and symbols the interface shows for boosts and upgrade
//! categories.

use vstd::prelude::*;
use vstd::string::StrSliceExecFns;
use crate::grid::BoostKind;

verus! {

/// Colour of a boost tile.
pub open spec fn spec_boost_color(b: BoostKind) -> Seq<char> {
    match b {
        BoostKind::Slow => "#3296ff"@,
        BoostKind::Damage => "#a855f7"@,
        BoostKind::Fire => "#f97316"@,
        BoostKind::Range => "#22c55e"@,
        BoostKind::FireRate => "#eab308"@,
    }
}

/// Name of a boost tile.
pub open spec fn spec_boost_name(b: BoostKind) -> Seq<char> {
    match b {
        BoostKind::Slow => "Cold"@,
        BoostKind::Damage => "Poison"@,
        BoostKind::Fire => "Fire"@,
        BoostKind::Range => "Healing"@,
        BoostKind::FireRate => "Fire Rate"@,
    }
}

/// Icon of a boost tile.
pub open spec fn spec_boost_icon(b: BoostKind) -> Seq<char> {
    match b {
        BoostKind::Slow => "❄"@,
        BoostKind::Damage => "☠"@,
        BoostKind::Fire => "🔥"@,
        BoostKind::Range => "✚"@,
        BoostKind::FireRate => "⚡"@,
    }
}

/// Symbol of an upgrade category; unknown categories get a dot.
pub open spec fn spec_cat_symbol(cat: Seq<char>) -> Seq<char> {
    if cat == "Damage"@ {
        "⚔"@
    } else if cat == "Health"@ {
        "❤"@
    } else if cat == "Economy"@ {
        "💰"@
    } else if cat == "Boost"@ {
        "✦"@
    } else if cat == "PlayArea"@ {
        "⛶"@
    } else {
        "●"@
    }
}

pub fn boost_color(boost: &BoostKind) -> (r: &'static str)
    ensures
        r@ == spec_boost_color(*boost),
{
    match boost {
        BoostKind::Slow => "#3296ff",
        BoostKind::Damage => "#a855f7",
        BoostKind::Fire => "#f97316",
        BoostKind::Range => "#22c55e",
        BoostKind::FireRate => "#eab308",
    }
}

pub fn boost_name(boost: &BoostKind) -> (r: &'static str)
    ensures
        r@ == spec_boost_name(*boost),
{
    match boost {
        BoostKind::Slow => "Cold",
        BoostKind::Damage => "Poison",
        BoostKind::Fire => "Fire",
        BoostKind::Range => "Healing",
        BoostKind::FireRate => "Fire Rate",
    }
}

pub fn boost_icon(boost: &BoostKind) -> (r: &'static str)
    ensures
        r@ == spec_boost_icon(*boost),
{
    match boost {
        BoostKind::Slow => "❄",
        BoostKind::Damage => "☠",
        BoostKind::Fire => "🔥",
        BoostKind::Range => "✚",
        BoostKind::FireRate => "⚡",
    }
}

/// Whether two strings hold the same characters.
fn same_text(a: &str, b: &str) -> (r: bool)
    ensures
        r == (a@ == b@),
{
    let n = a.unicode_len();
    if n != b.unicode_len() {
        return false;
    }
    let mut i: usize = 0;
    while i < n
        invariant
            i <= n,
            n == a@.len(),
            n == b@.len(),
            forall|j: int| 0 <= j < i ==> a@[j] == b@[j],
        decreases n - i,
    {
        if a.get_char(i) != b.get_char(i) {
            return false;
        }
        i += 1;
    }
    assert(a@ =~= b@);
    true
}

/// Symbol shown beside an upgrade category.
pub fn cat_symbol(cat: &str) -> (r: &'static str)
    ensures
        r@ == spec_cat_symbol(cat@),
{
    if same_text(cat, "Damage") {
        "⚔"
    } else if same_text(cat, "Health") {
        "❤"
    } else if same_text(cat, "Economy") {
        "💰"
    } else if same_text(cat, "Boost") {
        "✦"
    } else if same_text(cat, "PlayArea") {
        "⛶"
    } else {
        "●"
    }
}

} // verus!
