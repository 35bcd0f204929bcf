//! Quests: difficulty scaling, random generation, and workout matching.

use vstd::prelude::*;

verus! {

use crate::rng::random_below;
use crate::rng::random_alphanumeric;

/// Exercise categories of the workout catalog.
#[derive(Clone, Copy, Debug, PartialEq, Eq, Structural)]
#[allow(non_camel_case_types)]
pub enum ExerciseCategory {
    powerlifting,
    strength,
    stretching,
    cardio,
    olympic_weightlifting,
    strongman,
    plyometrics,
}

/// Muscle groups of the workout catalog.
#[derive(Clone, Copy, Debug, PartialEq, Eq, Structural)]
#[allow(non_camel_case_types)]
pub enum ExerciseMuscle {
    abdominals,
    abductors,
    adductors,
    biceps,
    calves,
    chest,
    forearms,
    glutes,
    hamstrings,
    lats,
    lower_back,
    middle_back,
    neck,
    quadriceps,
    shoulders,
    traps,
    tricep,
}

impl ExerciseCategory {
    /// All categories, in declaration order.
    pub fn variants() -> (r: Vec<ExerciseCategory>)
        ensures
            r@ =~= seq![
                ExerciseCategory::powerlifting,
                ExerciseCategory::strength,
                ExerciseCategory::stretching,
                ExerciseCategory::cardio,
                ExerciseCategory::olympic_weightlifting,
                ExerciseCategory::strongman,
                ExerciseCategory::plyometrics,
            ],
    {
        let mut v: Vec<ExerciseCategory> = Vec::new();
        v.push(ExerciseCategory::powerlifting);
        v.push(ExerciseCategory::strength);
        v.push(ExerciseCategory::stretching);
        v.push(ExerciseCategory::cardio);
        v.push(ExerciseCategory::olympic_weightlifting);
        v.push(ExerciseCategory::strongman);
        v.push(ExerciseCategory::plyometrics);
        v
    }
}

impl ExerciseMuscle {
    /// All muscle groups, in declaration order.
    pub fn variants() -> (r: Vec<ExerciseMuscle>)
        ensures
            r@.len() == 17,
    {
        let mut v: Vec<ExerciseMuscle> = Vec::new();
        v.push(ExerciseMuscle::abdominals);
        v.push(ExerciseMuscle::abductors);
        v.push(ExerciseMuscle::adductors);
        v.push(ExerciseMuscle::biceps);
        v.push(ExerciseMuscle::calves);
        v.push(ExerciseMuscle::chest);
        v.push(ExerciseMuscle::forearms);
        v.push(ExerciseMuscle::glutes);
        v.push(ExerciseMuscle::hamstrings);
        v.push(ExerciseMuscle::lats);
        v.push(ExerciseMuscle::lower_back);
        v.push(ExerciseMuscle::middle_back);
        v.push(ExerciseMuscle::neck);
        v.push(ExerciseMuscle::quadriceps);
        v.push(ExerciseMuscle::shoulders);
        v.push(ExerciseMuscle::traps);
        v.push(ExerciseMuscle::tricep);
        v
    }
}

/// Quest difficulty tiers.
#[derive(Clone, Copy, Debug, PartialEq, Eq, Structural)]
pub enum QuestDifficulty {
    Easy,
    Medium,
    Hard,
}

/// Experience reward for completing a quest of this difficulty.
pub open spec fn spec_quest_exp(d: QuestDifficulty) -> u32 {
    match d {
        QuestDifficulty::Easy => 500,
        QuestDifficulty::Medium => 2500,
        QuestDifficulty::Hard => 10000,
    }
}

/// Coin reward for completing a quest of this difficulty.
pub open spec fn spec_quest_coins(d: QuestDifficulty) -> u32 {
    match d {
        QuestDifficulty::Easy => 250,
        QuestDifficulty::Medium => 500,
        QuestDifficulty::Hard => 2000,
    }
}

impl QuestDifficulty {
    /// Experience reward on completion.
    pub fn exp(self) -> (r: u32)
        ensures
            r == spec_quest_exp(self),
    {
        match self {
            QuestDifficulty::Easy => 500,
            QuestDifficulty::Medium => 2500,
            QuestDifficulty::Hard => 10000,
        }
    }

    /// Coin reward on completion.
    pub fn coins(&self) -> (r: u32)
        ensures
            r == spec_quest_coins(*self),
    {
        match self {
            QuestDifficulty::Easy => 250,
            QuestDifficulty::Medium => 500,
            QuestDifficulty::Hard => 2000,
        }
    }

    /// How many requirement predicates a quest of this difficulty carries.
    pub fn requirements(self) -> (r: usize)
        ensures
            self == QuestDifficulty::Easy ==> r == 1,
            self == QuestDifficulty::Medium ==> r == 2,
            self == QuestDifficulty::Hard ==> r == 3,
    {
        match self {
            QuestDifficulty::Easy => 1,
            QuestDifficulty::Medium => 2,
            QuestDifficulty::Hard => 3,
        }
    }

    /// Sample how many matching workouts a quest of this difficulty takes:
    /// one for Easy, three to five for Medium, ten to fifteen for Hard.
    pub fn number_of_workouts_needed(self) -> (r: u32)
        ensures
            self == QuestDifficulty::Easy ==> r == 1,
            self == QuestDifficulty::Medium ==> 3 <= r <= 5,
            self == QuestDifficulty::Hard ==> 10 <= r <= 15,
            1 <= r <= 15,
    {
        match self {
            QuestDifficulty::Easy => 1,
            QuestDifficulty::Medium => 3 + (random_below(3) as u32),
            QuestDifficulty::Hard => 10 + (random_below(6) as u32),
        }
    }

    /// Sample a duration requirement in five-minute steps: 5 to 30 minutes
    /// for Easy, 45 to 60 for Medium, 80 to 120 for Hard.
    pub fn workout_duration(self) -> (r: u32)
        ensures
            r % 5 == 0,
            self == QuestDifficulty::Easy ==> 5 <= r <= 30,
            self == QuestDifficulty::Medium ==> 45 <= r <= 60,
            self == QuestDifficulty::Hard ==> 80 <= r <= 120,
    {
        match self {
            QuestDifficulty::Easy => (1 + (random_below(6) as u32)) * 5,
            QuestDifficulty::Medium => (9 + (random_below(4) as u32)) * 5,
            QuestDifficulty::Hard => (16 + (random_below(9) as u32)) * 5,
        }
    }
}

/// A quest is open until its workout target is reached, then closed for good.
#[derive(Clone, Copy, Debug, PartialEq, Eq, Structural)]
pub enum QuestStatus {
    Incomplete,
    Complete,
}

/// One quest of one character, as the store holds it.
#[derive(Clone, Debug)]
pub struct QuestRow {
    pub id: i32,
    pub user_id: i32,
    pub name: String,
    pub difficulty: QuestDifficulty,
    pub status: QuestStatus,
    pub number_of_workouts_needed: u32,
    pub number_of_workouts_completed: u32,
    pub workout_duration: Option<u32>,
    pub exercise_category: Option<ExerciseCategory>,
    pub exercise_muscle: Option<ExerciseMuscle>,
}

/// Internal consistency of a quest row: the counter never passes the target,
/// the target is positive, and the status mirrors whether it was reached.
pub open spec fn spec_quest_wf(q: QuestRow) -> bool {
    &&& 1 <= q.number_of_workouts_needed
    &&& q.number_of_workouts_completed <= q.number_of_workouts_needed
    &&& (q.status == QuestStatus::Complete <==> q.number_of_workouts_completed
        == q.number_of_workouts_needed)
}

/// How many requirement predicates a quest carries.
pub open spec fn spec_active_requirements(q: QuestRow) -> int {
    (if q.workout_duration is Some {
        1int
    } else {
        0int
    }) + (if q.exercise_category is Some {
        1int
    } else {
        0int
    }) + (if q.exercise_muscle is Some {
        1int
    } else {
        0int
    })
}

/// A workout, reduced to what quest matching reads: its duration and the
/// categories and muscle groups of its exercises, as the exercise catalog
/// resolves them.
#[derive(Clone, Debug)]
pub struct Workout {
    pub duration: u32,
    pub points: u32,
    pub coins: u32,
    pub categories: Vec<ExerciseCategory>,
    pub muscles: Vec<ExerciseMuscle>,
}

/// Whether a workout satisfies every active requirement of a quest. A quest
/// with no active requirements matches every workout.
pub open spec fn spec_quest_matches(q: QuestRow, w: Workout) -> bool {
    &&& (q.workout_duration matches Some(d) ==> w.duration >= d)
    &&& (q.exercise_category matches Some(c) ==> w.categories@.contains(c))
    &&& (q.exercise_muscle matches Some(m) ==> w.muscles@.contains(m))
}

fn contains_category(v: &Vec<ExerciseCategory>, c: ExerciseCategory) -> (r: bool)
    ensures
        r == v@.contains(c),
{
    let mut i: usize = 0;
    while i < v.len()
        invariant
            i <= v@.len(),
            forall|j: int| 0 <= j < i ==> v@[j] != c,
        decreases v@.len() - i,
    {
        if v[i] == c {
            return true;
        }
        i += 1;
    }
    false
}

fn contains_muscle(v: &Vec<ExerciseMuscle>, m: ExerciseMuscle) -> (r: bool)
    ensures
        r == v@.contains(m),
{
    let mut i: usize = 0;
    while i < v.len()
        invariant
            i <= v@.len(),
            forall|j: int| 0 <= j < i ==> v@[j] != m,
        decreases v@.len() - i,
    {
        if v[i] == m {
            return true;
        }
        i += 1;
    }
    false
}

/// Does this workout satisfy the quest's requirements?
pub fn workout_applies_to_quest(quest: &QuestRow, workout: &Workout) -> (r: bool)
    ensures
        r == spec_quest_matches(*quest, *workout),
{
    let mut flag = true;
    if let Some(d) = quest.workout_duration {
        flag = flag && workout.duration >= d;
    }
    if let Some(c) = quest.exercise_category {
        flag = flag && contains_category(&workout.categories, c);
    }
    if let Some(m) = quest.exercise_muscle {
        flag = flag && contains_muscle(&workout.muscles, m);
    }
    flag
}

/// Generate a fresh quest of the requested difficulty for a character.
///
/// The number of active requirement predicates equals the difficulty's
/// requirement count; which predicates are active and their targets are
/// random. The quest starts incomplete with a sixteen-character random name.
pub fn create_quest(difficulty: QuestDifficulty, id: i32, user_id: i32) -> (q: QuestRow)
    ensures
        q.id == id,
        q.user_id == user_id,
        q.difficulty == difficulty,
        q.status == QuestStatus::Incomplete,
        q.number_of_workouts_completed == 0,
        1 <= q.number_of_workouts_needed <= 15,
        spec_quest_wf(q),
        q.name@.len() == 16,
        spec_active_requirements(q) == (match difficulty {
            QuestDifficulty::Easy => 1int,
            QuestDifficulty::Medium => 2int,
            QuestDifficulty::Hard => 3int,
        }),
        q.workout_duration matches Some(d) ==> 5 <= d <= 120 && d % 5 == 0,
{
    let mut workout_duration: Option<u32> = None;
    let mut exercise_category: Option<ExerciseCategory> = None;
    let mut exercise_muscle: Option<ExerciseMuscle> = None;

    match difficulty {
        QuestDifficulty::Easy => {
            // One requirement, drawn uniformly from the three kinds.
            let which = random_below(3);
            if which == 0 {
                workout_duration = Some(difficulty.workout_duration());
            } else if which == 1 {
                exercise_category = Some(pick_exercise_category());
            } else {
                exercise_muscle = Some(pick_exercise_muscle());
            }
        },
        QuestDifficulty::Medium => {
            // Two requirements: leave one of the three kinds out.
            let out = random_below(3);
            if out != 0 {
                workout_duration = Some(difficulty.workout_duration());
            }
            if out != 1 {
                exercise_category = Some(pick_exercise_category());
            }
            if out != 2 {
                exercise_muscle = Some(pick_exercise_muscle());
            }
        },
        QuestDifficulty::Hard => {
            workout_duration = Some(difficulty.workout_duration());
            exercise_category = Some(pick_exercise_category());
            exercise_muscle = Some(pick_exercise_muscle());
        },
    }

    QuestRow {
        id,
        user_id,
        name: random_alphanumeric(16),
        difficulty,
        status: QuestStatus::Incomplete,
        number_of_workouts_needed: difficulty.number_of_workouts_needed(),
        number_of_workouts_completed: 0,
        workout_duration,
        exercise_category,
        exercise_muscle,
    }
}

/// A request to open a new quest.
#[derive(Clone, Copy, Debug, PartialEq, Eq, Structural)]
pub struct CreateQuestRequest {
    pub difficulty: QuestDifficulty,
}

/// The freshly generated quest, as handed back to the caller.
#[derive(Clone, Debug)]
pub struct CreateQuestResponse {
    pub name: String,
    pub difficulty: QuestDifficulty,
    pub status: QuestStatus,
    pub number_of_workouts_needed: u32,
    pub number_of_workouts_completed: u32,
    pub workout_duration: Option<u32>,
    pub exercise_category: Option<ExerciseCategory>,
    pub exercise_muscle: Option<ExerciseMuscle>,
}

/// The quests of one character, in listing order.
#[derive(Clone, Debug)]
pub struct ReadQuestsResponse {
    pub quests: Vec<QuestRow>,
}

impl QuestRow {
    /// A field-for-field copy.
    pub fn duplicate(&self) -> (r: QuestRow)
        ensures
            r == *self,
    {
        QuestRow {
            id: self.id,
            user_id: self.user_id,
            name: self.name.clone(),
            difficulty: self.difficulty,
            status: self.status,
            number_of_workouts_needed: self.number_of_workouts_needed,
            number_of_workouts_completed: self.number_of_workouts_completed,
            workout_duration: self.workout_duration,
            exercise_category: self.exercise_category,
            exercise_muscle: self.exercise_muscle,
        }
    }
}

/// The quests belonging to one character, in listing order.
pub open spec fn spec_user_quests(s: Seq<QuestRow>, user_id: i32) -> Seq<QuestRow>
    decreases s.len(),
{
    if s.len() == 0 {
        Seq::empty()
    } else {
        let rest = spec_user_quests(s.drop_last(), user_id);
        if s.last().user_id == user_id {
            rest.push(s.last())
        } else {
            rest
        }
    }
}

/// Whether logging this workout completes the quest: it must be open,
/// match, and sit one workout short of its target.
pub open spec fn spec_quest_completes(q: QuestRow, w: Workout) -> bool {
    &&& q.status == QuestStatus::Incomplete
    &&& spec_quest_matches(q, w)
    &&& q.number_of_workouts_completed + 1 == q.number_of_workouts_needed
}

/// The quest after one workout is logged: an open, matching quest counts the
/// workout and closes on reaching its target; any other quest is untouched.
pub open spec fn spec_advance_quest(q: QuestRow, w: Workout) -> QuestRow {
    if q.status == QuestStatus::Incomplete && spec_quest_matches(q, w) {
        QuestRow {
            number_of_workouts_completed: (q.number_of_workouts_completed + 1) as u32,
            status: if q.number_of_workouts_completed + 1 == q.number_of_workouts_needed {
                QuestStatus::Complete
            } else {
                QuestStatus::Incomplete
            },
            ..q
        }
    } else {
        q
    }
}

/// Advancing preserves a quest's internal consistency, and a completed quest
/// is never advanced again.
pub proof fn lemma_advance_quest_wf(q: QuestRow, w: Workout)
    requires
        spec_quest_wf(q),
    ensures
        spec_quest_wf(spec_advance_quest(q, w)),
        q.status == QuestStatus::Complete ==> spec_advance_quest(q, w) == q,
{
}

/// Draw a category uniformly from the seven.
pub fn pick_exercise_category() -> ExerciseCategory {
    let variants = ExerciseCategory::variants();
    let i = random_below(7) as usize;
    variants[i]
}

/// Draw a muscle group uniformly from the seventeen.
pub fn pick_exercise_muscle() -> ExerciseMuscle {
    let variants = ExerciseMuscle::variants();
    let i = random_below(17) as usize;
    variants[i]
}

} // verus!
