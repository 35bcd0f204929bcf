use fitquest::quests::{
    create_quest, workout_applies_to_quest, ExerciseCategory, ExerciseMuscle, QuestDifficulty,
    QuestRow, QuestStatus, Workout,
};

fn workout(duration: u32) -> Workout {
    Workout { duration, points: 0, coins: 0, categories: vec![], muscles: vec![] }
}

fn bare_quest() -> QuestRow {
    QuestRow {
        id: 1,
        user_id: 1,
        name: "q".to_string(),
        difficulty: QuestDifficulty::Easy,
        status: QuestStatus::Incomplete,
        number_of_workouts_needed: 1,
        number_of_workouts_completed: 0,
        workout_duration: None,
        exercise_category: None,
        exercise_muscle: None,
    }
}

#[test]
fn duration_requirement_is_a_lower_bound() {
    let mut quest = bare_quest();
    quest.workout_duration = Some(30);
    assert!(workout_applies_to_quest(&quest, &workout(30)));
    assert!(!workout_applies_to_quest(&quest, &workout(29)));
    assert!(workout_applies_to_quest(&quest, &workout(31)));
}

#[test]
fn category_requirement_needs_one_matching_exercise() {
    let mut quest = bare_quest();
    quest.exercise_category = Some(ExerciseCategory::cardio);
    let mut w = workout(10);
    w.categories = vec![ExerciseCategory::strength, ExerciseCategory::stretching];
    assert!(!workout_applies_to_quest(&quest, &w));
    w.categories.push(ExerciseCategory::cardio);
    assert!(workout_applies_to_quest(&quest, &w));
}

#[test]
fn muscle_requirement_needs_one_matching_exercise() {
    let mut quest = bare_quest();
    quest.exercise_muscle = Some(ExerciseMuscle::biceps);
    let mut w = workout(10);
    w.muscles = vec![ExerciseMuscle::calves];
    assert!(!workout_applies_to_quest(&quest, &w));
    w.muscles.push(ExerciseMuscle::biceps);
    assert!(workout_applies_to_quest(&quest, &w));
}

#[test]
fn quest_without_requirements_matches_every_workout() {
    let quest = bare_quest();
    assert!(workout_applies_to_quest(&quest, &workout(0)));
    assert!(workout_applies_to_quest(&quest, &workout(9999)));
}

#[test]
fn all_requirements_must_hold_together() {
    let mut quest = bare_quest();
    quest.workout_duration = Some(20);
    quest.exercise_category = Some(ExerciseCategory::cardio);
    let mut w = workout(25);
    w.categories = vec![ExerciseCategory::cardio];
    assert!(workout_applies_to_quest(&quest, &w));
    w.duration = 19;
    assert!(!workout_applies_to_quest(&quest, &w));
}

#[test]
fn difficulty_rewards_are_fixed() {
    assert_eq!(QuestDifficulty::Easy.exp(), 500);
    assert_eq!(QuestDifficulty::Medium.exp(), 2_500);
    assert_eq!(QuestDifficulty::Hard.exp(), 10_000);
    assert_eq!(QuestDifficulty::Easy.coins(), 250);
    assert_eq!(QuestDifficulty::Medium.coins(), 500);
    assert_eq!(QuestDifficulty::Hard.coins(), 2_000);
}

#[test]
fn difficulty_requirement_counts_are_fixed() {
    assert_eq!(QuestDifficulty::Easy.requirements(), 1);
    assert_eq!(QuestDifficulty::Medium.requirements(), 2);
    assert_eq!(QuestDifficulty::Hard.requirements(), 3);
}

#[test]
fn workouts_needed_stays_in_its_difficulty_range() {
    for _ in 0..50 {
        assert_eq!(QuestDifficulty::Easy.number_of_workouts_needed(), 1);
        let m = QuestDifficulty::Medium.number_of_workouts_needed();
        assert!((3..=5).contains(&m));
        let h = QuestDifficulty::Hard.number_of_workouts_needed();
        assert!((10..=15).contains(&h));
    }
}

#[test]
fn sampled_durations_are_five_minute_steps_in_range() {
    for _ in 0..50 {
        let e = QuestDifficulty::Easy.workout_duration();
        assert!(e % 5 == 0 && (5..=30).contains(&e));
        let m = QuestDifficulty::Medium.workout_duration();
        assert!(m % 5 == 0 && (45..=60).contains(&m));
        let h = QuestDifficulty::Hard.workout_duration();
        assert!(h % 5 == 0 && (80..=120).contains(&h));
    }
}

fn active_requirements(q: &QuestRow) -> usize {
    q.workout_duration.is_some() as usize + q.exercise_category.is_some() as usize
        + q.exercise_muscle.is_some() as usize
}

#[test]
fn generated_quests_carry_the_difficulty_requirement_count() {
    for _ in 0..25 {
        let e = create_quest(QuestDifficulty::Easy, 1, 7);
        assert_eq!(active_requirements(&e), 1);
        assert_eq!(e.status, QuestStatus::Incomplete);
        assert_eq!(e.number_of_workouts_completed, 0);
        assert_eq!(e.number_of_workouts_needed, 1);
        assert_eq!(e.user_id, 7);
        assert_eq!(e.name.chars().count(), 16);
        let m = create_quest(QuestDifficulty::Medium, 2, 7);
        assert_eq!(active_requirements(&m), 2);
        let h = create_quest(QuestDifficulty::Hard, 3, 7);
        assert_eq!(active_requirements(&h), 3);
        assert!(h.name.chars().all(|c| c.is_ascii_alphanumeric()));
    }
}
