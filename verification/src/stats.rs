//! Character classes, stats, and stat-point allocation.

use vstd::prelude::*;

verus! {

/// The three trainable attributes of a character.
#[derive(Clone, Copy, Debug, PartialEq, Eq, Structural)]
pub struct Stats {
    pub strength: i32,
    pub endurance: i32,
    pub flexibility: i32,
}

/// A character's class: its display name and its current stats.
#[derive(Clone, Debug)]
pub struct Class {
    pub name: String,
    pub stats: Stats,
}

impl Class {
    /// A field-for-field copy.
    pub fn duplicate(&self) -> (r: Class)
        ensures
            r == *self,
    {
        Class { name: self.name.clone(), stats: self.stats }
    }
}

/// A row of the class catalog.
#[derive(Clone, Debug)]
pub struct ClassesRow {
    pub id: i32,
    pub name: String,
    pub stats: Stats,
}

/// The selectable class archetypes.
#[derive(Clone, Copy, Debug, PartialEq, Eq, Structural)]
pub enum ClassType {
    Assasin,
    Gladiator,
    Monk,
    Warrior,
    Wizard,
}

/// Why a stat allocation was rejected.
#[derive(Clone, Copy, Debug, PartialEq, Eq, Structural)]
pub enum StatError {
    InsufficientPoints,
    UnknownStat,
}

/// Why a class change was rejected.
#[derive(Clone, Copy, Debug, PartialEq, Eq, Structural)]
pub enum ClassError {
    InvalidClassId,
    CurrentClassNotFound,
}

/// Base stats of the class with the given catalog id, if any.
pub open spec fn spec_base_class_stats(class_id: i32) -> Option<(Seq<char>, Stats)> {
    if class_id == 1 {
        Some(("Warrior"@, Stats { strength: 10, endurance: 7, flexibility: 5 }))
    } else if class_id == 2 {
        Some(("Monk"@, Stats { strength: 4, endurance: 7, flexibility: 10 }))
    } else if class_id == 3 {
        Some(("Assassin"@, Stats { strength: 5, endurance: 10, flexibility: 6 }))
    } else if class_id == 4 {
        Some(("Wizard"@, Stats { strength: 7, endurance: 7, flexibility: 7 }))
    } else if class_id == 5 {
        Some(("Gladiator"@, Stats { strength: 6, endurance: 5, flexibility: 5 }))
    } else {
        None
    }
}

/// Base stats of the class with the given display name, if any.
pub open spec fn spec_base_stats_by_name(name: Seq<char>) -> Option<Stats> {
    if name == "Warrior"@ {
        Some(Stats { strength: 10, endurance: 7, flexibility: 5 })
    } else if name == "Monk"@ {
        Some(Stats { strength: 4, endurance: 7, flexibility: 10 })
    } else if name == "Assassin"@ {
        Some(Stats { strength: 5, endurance: 10, flexibility: 6 })
    } else if name == "Wizard"@ {
        Some(Stats { strength: 7, endurance: 7, flexibility: 7 })
    } else if name == "Gladiator"@ {
        Some(Stats { strength: 6, endurance: 5, flexibility: 5 })
    } else {
        None
    }
}

/// Look up the name and base stats for a class catalog id.
pub fn base_class_stats(class_id: i32) -> (r: Option<(String, Stats)>)
    ensures
        match r {
            Some((name, stats)) => spec_base_class_stats(class_id) == Some((name@, stats)),
            None => spec_base_class_stats(class_id) is None,
        },
{
    if class_id == 1 {
        Some(("Warrior".to_owned(), Stats { strength: 10, endurance: 7, flexibility: 5 }))
    } else if class_id == 2 {
        Some(("Monk".to_owned(), Stats { strength: 4, endurance: 7, flexibility: 10 }))
    } else if class_id == 3 {
        Some(("Assassin".to_owned(), Stats { strength: 5, endurance: 10, flexibility: 6 }))
    } else if class_id == 4 {
        Some(("Wizard".to_owned(), Stats { strength: 7, endurance: 7, flexibility: 7 }))
    } else if class_id == 5 {
        Some(("Gladiator".to_owned(), Stats { strength: 6, endurance: 5, flexibility: 5 }))
    } else {
        None
    }
}

/// Look up the base stats for a class display name.
pub fn base_stats_by_name(name: &String) -> (r: Option<Stats>)
    ensures
        r == spec_base_stats_by_name(name@),
{
    if *name == "Warrior".to_owned() {
        Some(Stats { strength: 10, endurance: 7, flexibility: 5 })
    } else if *name == "Monk".to_owned() {
        Some(Stats { strength: 4, endurance: 7, flexibility: 10 })
    } else if *name == "Assassin".to_owned() {
        Some(Stats { strength: 5, endurance: 10, flexibility: 6 })
    } else if *name == "Wizard".to_owned() {
        Some(Stats { strength: 7, endurance: 7, flexibility: 7 })
    } else if *name == "Gladiator".to_owned() {
        Some(Stats { strength: 6, endurance: 5, flexibility: 5 })
    } else {
        None
    }
}

/// Add earned deltas to each attribute. The bounds are machine limits on the
/// `i32` fields.
pub fn add_stats(current: &Stats, strength: i32, endurance: i32, flexibility: i32) -> (r: Stats)
    requires
        i32::MIN <= current.strength + strength <= i32::MAX,
        i32::MIN <= current.endurance + endurance <= i32::MAX,
        i32::MIN <= current.flexibility + flexibility <= i32::MAX,
    ensures
        r.strength == current.strength + strength,
        r.endurance == current.endurance + endurance,
        r.flexibility == current.flexibility + flexibility,
{
    Stats {
        strength: current.strength + strength,
        endurance: current.endurance + endurance,
        flexibility: current.flexibility + flexibility,
    }
}

/// The outcome of spending `amount` pending stat points on the attribute
/// named `stat`.
pub open spec fn spec_allocation(stat: Seq<char>, amount: u32, pending: u64, current: Stats) -> Result<
    (Stats, u64),
    StatError,
> {
    if amount > pending {
        Err(StatError::InsufficientPoints)
    } else if stat == "strength"@ {
        Ok(
            (
                Stats { strength: (current.strength + amount) as i32, ..current },
                (pending - amount) as u64,
            ),
        )
    } else if stat == "endurance"@ {
        Ok(
            (
                Stats { endurance: (current.endurance + amount) as i32, ..current },
                (pending - amount) as u64,
            ),
        )
    } else if stat == "flexibility"@ {
        Ok(
            (
                Stats { flexibility: (current.flexibility + amount) as i32, ..current },
                (pending - amount) as u64,
            ),
        )
    } else {
        Err(StatError::UnknownStat)
    }
}

/// Spend `amount` pending stat points on the named attribute.
///
/// Fails with `InsufficientPoints` when `amount` exceeds the pending points,
/// and with `UnknownStat` when the name is none of `strength`, `endurance`,
/// `flexibility`. On success the named attribute grows by `amount` and the
/// pending points shrink by `amount`. The bound on the grown attribute is a
/// machine limit on the `i32` field.
pub fn allocate_stat_point(stat: &String, amount: u32, pending_points: u64, current: &Stats) -> (r:
    Result<(Stats, u64), StatError>)
    requires
        current.strength + amount <= i32::MAX,
        current.endurance + amount <= i32::MAX,
        current.flexibility + amount <= i32::MAX,
    ensures
        r == spec_allocation(stat@, amount, pending_points, *current),
        amount > pending_points ==> r == Err::<(Stats, u64), StatError>(
            StatError::InsufficientPoints,
        ),
        amount <= pending_points && stat@ == "strength"@ ==> r == Ok::<(Stats, u64), StatError>(
            (
                Stats { strength: (current.strength + amount) as i32, ..*current },
                (pending_points - amount) as u64,
            ),
        ),
        amount <= pending_points && stat@ == "endurance"@ ==> r == Ok::<(Stats, u64), StatError>(
            (
                Stats { endurance: (current.endurance + amount) as i32, ..*current },
                (pending_points - amount) as u64,
            ),
        ),
        amount <= pending_points && stat@ == "flexibility"@ ==> r == Ok::<(Stats, u64), StatError>(
            (
                Stats { flexibility: (current.flexibility + amount) as i32, ..*current },
                (pending_points - amount) as u64,
            ),
        ),
        amount <= pending_points && stat@ != "strength"@ && stat@ != "endurance"@ && stat@
            != "flexibility"@ ==> r == Err::<(Stats, u64), StatError>(StatError::UnknownStat),
{
    proof {
        reveal_strlit("strength");
        reveal_strlit("endurance");
        reveal_strlit("flexibility");
        assert("strength"@.len() == 8);
        assert("endurance"@.len() == 9);
        assert("flexibility"@.len() == 11);
        assert("strength"@ != "endurance"@);
        assert("strength"@ != "flexibility"@);
        assert("endurance"@ != "flexibility"@);
    }
    if (amount as u64) > pending_points {
        return Err(StatError::InsufficientPoints);
    }
    let new_pending = pending_points - (amount as u64);
    if *stat == "strength".to_owned() {
        Ok((Stats { strength: ((current.strength as i64) + (amount as i64)) as i32, ..*current }, new_pending))
    } else if *stat == "endurance".to_owned() {
        Ok((Stats { endurance: ((current.endurance as i64) + (amount as i64)) as i32, ..*current }, new_pending))
    } else if *stat == "flexibility".to_owned() {
        Ok((Stats { flexibility: ((current.flexibility as i64) + (amount as i64)) as i32, ..*current }, new_pending))
    } else {
        Err(StatError::UnknownStat)
    }
}

/// Switch a character to the class with catalog id `class_id`, carrying the
/// stats earned beyond the old class's base over to the new base.
///
/// Fails with `InvalidClassId` when the id is not in the catalog, and with
/// `CurrentClassNotFound` when the current class name is not in the catalog.
/// The stat bounds are machine limits on the `i32` fields.
pub fn update_class(current: &Class, class_id: i32) -> (r: Result<Class, ClassError>)
    requires
        -0x40000000 <= current.stats.strength <= 0x40000000,
        -0x40000000 <= current.stats.endurance <= 0x40000000,
        -0x40000000 <= current.stats.flexibility <= 0x40000000,
    ensures
        spec_base_class_stats(class_id) is None ==> r == Err::<Class, ClassError>(
            ClassError::InvalidClassId,
        ),
        spec_base_class_stats(class_id) is Some && spec_base_stats_by_name(current.name@) is None
            ==> r == Err::<Class, ClassError>(ClassError::CurrentClassNotFound),
        (match (spec_base_class_stats(class_id), spec_base_stats_by_name(current.name@)) {
            (Some((new_name, new_base)), Some(old_base)) => r matches Ok(c) && c.name@ == new_name
                && c.stats == (Stats {
                strength: (new_base.strength + current.stats.strength - old_base.strength) as i32,
                endurance: (new_base.endurance + current.stats.endurance
                    - old_base.endurance) as i32,
                flexibility: (new_base.flexibility + current.stats.flexibility
                    - old_base.flexibility) as i32,
            }),
            _ => true,
        }),
{
    let looked_up = base_class_stats(class_id);
    match looked_up {
        None => Err(ClassError::InvalidClassId),
        Some((new_name, new_base)) => {
            match base_stats_by_name(&current.name) {
                None => Err(ClassError::CurrentClassNotFound),
                Some(old_base) => {
                    let earned_strength = current.stats.strength - old_base.strength;
                    let earned_endurance = current.stats.endurance - old_base.endurance;
                    let earned_flexibility = current.stats.flexibility - old_base.flexibility;
                    Ok(
                        Class {
                            name: new_name,
                            stats: Stats {
                                strength: new_base.strength + earned_strength,
                                endurance: new_base.endurance + earned_endurance,
                                flexibility: new_base.flexibility + earned_flexibility,
                            },
                        },
                    )
                },
            }
        },
    }
}

} // verus!
