use fitquest::progression::{apply_experience, exp_needed_for_level};
use fitquest::stats::{add_stats, allocate_stat_point, update_class, Class, ClassError, StatError, Stats};

#[test]
fn exp_required_at_level_zero_is_200() {
    assert_eq!(exp_needed_for_level(0), 200);
}

#[test]
fn exp_required_at_level_one_is_214() {
    assert_eq!(exp_needed_for_level(1), 214);
}

#[test]
fn exp_required_small_values() {
    assert_eq!(exp_needed_for_level(2), 228);
    assert_eq!(exp_needed_for_level(3), 245);
    assert_eq!(exp_needed_for_level(4), 262);
}

#[test]
fn exp_required_strictly_increases() {
    let mut prev = exp_needed_for_level(0);
    for level in 1..60u32 {
        let cur = exp_needed_for_level(level);
        assert!(cur > prev, "requirement must grow at level {level}");
        prev = cur;
    }
}

#[test]
fn exp_required_is_deterministic() {
    for level in [0u32, 7, 42, 199, 560] {
        assert_eq!(exp_needed_for_level(level), exp_needed_for_level(level));
    }
}

#[test]
fn apply_experience_single_level_up() {
    // 0 leftover + 250 gained covers the 200 needed at level 0, leaving 50.
    let (level, leftover, pending) = apply_experience(0, 0, 0, 250);
    assert_eq!(level, 1);
    assert_eq!(leftover, 50);
    assert_eq!(pending, 1);
}

#[test]
fn apply_experience_multi_level_up() {
    // 200 + 214 + 228 = 642 exactly reaches level 3.
    let (level, leftover, pending) = apply_experience(0, 0, 0, 642);
    assert_eq!(level, 3);
    assert_eq!(leftover, 0);
    assert_eq!(pending, 3);
}

#[test]
fn apply_experience_no_level_up() {
    let (level, leftover, pending) = apply_experience(0, 100, 2, 50);
    assert_eq!(level, 0);
    assert_eq!(leftover, 150);
    assert_eq!(pending, 2);
}

#[test]
fn apply_experience_zero_gain_is_identity() {
    let (level, leftover, pending) = apply_experience(3, 100, 2, 0);
    assert_eq!((level, leftover, pending), (3, 100, 2));
}

#[test]
fn apply_experience_leftover_stays_below_requirement() {
    let mut level = 1u32;
    let mut leftover = 0u64;
    let mut pending = 0u64;
    for gained in [10u32, 5_000, 123_456, 4_000_000_000, 999] {
        let (nl, nlo, np) = apply_experience(level, leftover, pending, gained);
        assert!(nl >= level);
        assert!(nlo < exp_needed_for_level(nl));
        assert_eq!(np - pending, (nl - level) as u64);
        level = nl;
        leftover = nlo;
        pending = np;
    }
}

#[test]
fn allocate_fails_on_insufficient_points() {
    let stats = Stats { strength: 5, endurance: 5, flexibility: 5 };
    let r = allocate_stat_point(&"strength".to_string(), 3, 2, &stats);
    assert_eq!(r, Err(StatError::InsufficientPoints));
}

#[test]
fn allocate_fails_on_unknown_stat() {
    let stats = Stats { strength: 5, endurance: 5, flexibility: 5 };
    let r = allocate_stat_point(&"charisma".to_string(), 1, 2, &stats);
    assert_eq!(r, Err(StatError::UnknownStat));
}

#[test]
fn allocate_adds_to_each_stat() {
    let stats = Stats { strength: 5, endurance: 6, flexibility: 7 };
    let (s1, p1) = allocate_stat_point(&"strength".to_string(), 2, 5, &stats).unwrap();
    assert_eq!(s1, Stats { strength: 7, endurance: 6, flexibility: 7 });
    assert_eq!(p1, 3);
    let (s2, p2) = allocate_stat_point(&"endurance".to_string(), 1, 5, &stats).unwrap();
    assert_eq!(s2, Stats { strength: 5, endurance: 7, flexibility: 7 });
    assert_eq!(p2, 4);
    let (s3, p3) = allocate_stat_point(&"flexibility".to_string(), 5, 5, &stats).unwrap();
    assert_eq!(s3, Stats { strength: 5, endurance: 6, flexibility: 12 });
    assert_eq!(p3, 0);
}

#[test]
fn add_stats_adds_componentwise() {
    let stats = Stats { strength: 1, endurance: 2, flexibility: 3 };
    let r = add_stats(&stats, 10, 20, 30);
    assert_eq!(r, Stats { strength: 11, endurance: 22, flexibility: 33 });
}

#[test]
fn update_class_carries_earned_stats_over() {
    // Warrior base is (10, 7, 5); this character earned (2, 1, 0) on top.
    let current = Class {
        name: "Warrior".to_string(),
        stats: Stats { strength: 12, endurance: 8, flexibility: 5 },
    };
    // Monk base is (4, 7, 10).
    let updated = update_class(&current, 2).unwrap();
    assert_eq!(updated.name, "Monk".to_string());
    assert_eq!(updated.stats, Stats { strength: 6, endurance: 8, flexibility: 10 });
}

#[test]
fn update_class_rejects_unknown_id() {
    let current = Class {
        name: "Warrior".to_string(),
        stats: Stats { strength: 10, endurance: 7, flexibility: 5 },
    };
    assert_eq!(update_class(&current, 9).err(), Some(ClassError::InvalidClassId));
}

#[test]
fn update_class_rejects_unknown_current_class() {
    let current = Class {
        name: "Bard".to_string(),
        stats: Stats { strength: 1, endurance: 1, flexibility: 1 },
    };
    assert_eq!(update_class(&current, 1).err(), Some(ClassError::CurrentClassNotFound));
}
