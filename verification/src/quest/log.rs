use vstd::prelude::*;
use crate::data::area_info::AreaData;
use crate::quest::builder::{build, difficulty_fits, fresh_hunt};
use crate::quest::quest::Quest;

verus! {

pub struct QuestLog {
    pub entries: Vec<Quest>,
}

/// A quest one day later.
pub open spec fn aged(quest: Quest) -> Quest {
    Quest {
        quest_type: quest.quest_type,
        spawn_info: quest.spawn_info,
        area_name: quest.area_name,
        map_builder_args: quest.map_builder_args,
        reward: quest.reward,
        turn_limit: quest.turn_limit,
        completed: quest.completed,
        days_remaining: (quest.days_remaining - 1) as u8,
    }
}

/// The offers one day later: those that had more than a day left, in the
/// order they were in, each with a day less.
pub open spec fn after_a_day(quests: Seq<Quest>) -> Seq<Quest>
    decreases quests.len(),
{
    if quests.len() == 0 {
        Seq::empty()
    } else if quests.last().days_remaining > 1 {
        after_a_day(quests.drop_last()).push(aged(quests.last()))
    } else {
        after_a_day(quests.drop_last())
    }
}

impl QuestLog {
    /// A log without offers.
    pub fn new() -> (log: QuestLog)
        ensures
            log.entries@.len() == 0,
    {
        QuestLog { entries: Vec::new() }
    }

    /// Adds a fresh hunt of the given difficulty to the offers.
    pub fn add_quest(
        &mut self,
        rng: &mut rltk::RandomNumberGenerator,
        data: &AreaData,
        difficulty: i32,
    )
        requires
            data.prefixes@.len() > 0,
            data.areas@.len() > 0,
            difficulty_fits(difficulty as int),
        ensures
            final(self).entries@.len() == old(self).entries@.len() + 1,
            final(self).entries@.drop_last() == old(self).entries@,
            fresh_hunt(final(self).entries@.last(), *data, difficulty as int),
    {
        let quest = build(rng, data, difficulty);
        self.entries.push(quest);
        assert(self.entries@.drop_last() =~= old(self).entries@);
    }

    /// Lets a day pass: offers that had no more than a day left are
    /// withdrawn, the others have a day less.
    pub fn advance_day(&mut self)
        ensures
            final(self).entries@ == after_a_day(old(self).entries@),
    {
        let ghost offers = self.entries@;
        let mut waiting: Vec<Quest> = Vec::new();
        while self.entries.len() > 0
            invariant
                self.entries@.len() + waiting@.len() == offers.len(),
                self.entries@ == offers.take(self.entries@.len() as int),
                forall|k: int|
                    0 <= k < waiting@.len() ==> waiting@[k] == offers[offers.len() - 1 - k],
            decreases self.entries@.len(),
        {
            match self.entries.pop() {
                Some(quest) => {
                    waiting.push(quest);
                },
                None => {},
            }
        }
        while waiting.len() > 0
            invariant
                waiting@.len() <= offers.len(),
                forall|k: int|
                    0 <= k < waiting@.len() ==> waiting@[k] == offers[offers.len() - 1 - k],
                self.entries@ == after_a_day(offers.take(offers.len() - waiting@.len())),
            decreases waiting@.len(),
        {
            let ghost done = offers.len() - waiting@.len();
            match waiting.pop() {
                Some(quest) => {
                    let mut quest = quest;
                    assert(quest == offers[done]);
                    assert(offers.take(done + 1).drop_last() =~= offers.take(done));
                    assert(offers.take(done + 1).last() == offers[done]);
                    if quest.days_remaining > 1 {
                        quest.days_remaining = quest.days_remaining - 1;
                        self.entries.push(quest);
                    }
                },
                None => {},
            }
        }
        assert(offers.take(offers.len() as int) =~= offers);
    }
}

} // verus!
