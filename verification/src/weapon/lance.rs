use vstd::prelude::*;
use vstd::string::*;
use crate::components::AttackIntent;
use crate::direction::{direction_delta, Direction};
use crate::geometry::Point;
use crate::move_type::{attack_delay, get_attack_intent, AttackType};
use crate::weapon::can_aim;
use crate::weapon::{Weapon, WeaponButton};

verus! {

/// Where the lance is in its combo.
#[derive(Clone, Copy, Debug, PartialEq, Eq, Structural)]
pub enum LanceState {
    Sheathed,
    Ready,
    /// In a combo, `prev_count` thrusts in.
    Attack { prev_count: u8 },
    /// Charging ahead.
    Running,
    Counter,
    Guard,
    /// Recovering from a sweep.
    Wait,
}

/// The attacks of the lance.
#[derive(Clone, Copy, Debug, PartialEq, Eq, Structural)]
pub enum LanceAttack {
    DrawAttack,
    Thrust { level: u8 },
    Charge,
    Sweep,
}

/// The number of thrusts after which a combo takes no further one.
pub const MAX_THRUSTS: u8 = 3;

pub struct Lance {
    state: LanceState,
    level: u8,
}

/// What the light button does in each state: the attack and the state that
/// follows, or nothing where the press is rejected.
pub open spec fn light_transition(state: LanceState) -> Option<(LanceAttack, LanceState)> {
    match state {
        LanceState::Sheathed => Some(
            (LanceAttack::DrawAttack, LanceState::Attack { prev_count: 1 }),
        ),
        LanceState::Ready => Some(
            (LanceAttack::Thrust { level: 1 }, LanceState::Attack { prev_count: 1 }),
        ),
        LanceState::Attack { prev_count } => if prev_count < MAX_THRUSTS {
            Some(
                (
                    LanceAttack::Thrust { level: (prev_count + 1) as u8 },
                    LanceState::Attack { prev_count: (prev_count + 1) as u8 },
                ),
            )
        } else {
            None
        },
        LanceState::Running => Some(
            (LanceAttack::Thrust { level: 4 }, LanceState::Attack { prev_count: 1 }),
        ),
        LanceState::Guard => Some(
            (LanceAttack::Thrust { level: 1 }, LanceState::Attack { prev_count: 1 }),
        ),
        LanceState::Counter => None,
        LanceState::Wait => None,
    }
}

/// What the heavy button does in each state.
pub open spec fn heavy_transition(state: LanceState) -> Option<(LanceAttack, LanceState)> {
    match state {
        LanceState::Ready => Some((LanceAttack::Sweep, LanceState::Wait)),
        LanceState::Attack { prev_count } => if prev_count < MAX_THRUSTS {
            Some((LanceAttack::Sweep, LanceState::Wait))
        } else {
            None
        },
        _ => None,
    }
}

/// What the special button does in each state.
pub open spec fn special_transition(state: LanceState) -> Option<(LanceAttack, LanceState)> {
    match state {
        LanceState::Ready => Some((LanceAttack::Charge, LanceState::Running)),
        _ => None,
    }
}

/// The transition table of the lance.
pub open spec fn transition(state: LanceState, button: WeaponButton) -> Option<
    (LanceAttack, LanceState),
> {
    match button {
        WeaponButton::Light => light_transition(state),
        WeaponButton::Heavy => heavy_transition(state),
        WeaponButton::Special => special_transition(state),
    }
}

/// The state after a press of `button`: the one the table gives, or the same
/// state where the press is rejected.
pub open spec fn pressed(state: LanceState, button: WeaponButton) -> LanceState {
    match transition(state, button) {
        Some((_, next)) => next,
        None => state,
    }
}

/// Whether the table can produce the attack: a thrust has a level from one
/// to four.
pub open spec fn named_attack(attack: LanceAttack) -> bool {
    match attack {
        LanceAttack::Thrust { level } => 1 <= level <= 4,
        _ => true,
    }
}

/// The name of an attack of the lance.
pub open spec fn lance_attack_name(attack: LanceAttack) -> Seq<char> {
    match attack {
        LanceAttack::DrawAttack => "Draw Atk"@,
        LanceAttack::Thrust { level } => if level == 1 {
            "Thrust I"@
        } else if level == 2 {
            "Thrust II"@
        } else if level == 3 {
            "Thrust III"@
        } else {
            "Charge Thrust"@
        },
        LanceAttack::Charge => "Charge"@,
        LanceAttack::Sweep => "Sweep"@,
    }
}

/// The name of an attack of the lance.
pub fn get_attack_name(attack: LanceAttack) -> (name: String)
    requires
        named_attack(attack),
    ensures
        name@ == lance_attack_name(attack),
{
    let name = match attack {
        LanceAttack::DrawAttack => "Draw Atk",
        LanceAttack::Thrust { level } => if level == 1 {
            "Thrust I"
        } else if level == 2 {
            "Thrust II"
        } else if level == 3 {
            "Thrust III"
        } else {
            "Charge Thrust"
        },
        LanceAttack::Charge => "Charge",
        LanceAttack::Sweep => "Sweep",
    };
    String::from_str(name)
}

/// The action of the catalog that an attack of the lance is carried out
/// as: the draw attack and the first two thrusts of a combo are punches,
/// the third thrust and the thrust out of a charge are haymakers, the sweep
/// is the sweep, and the charge is a move that harms nobody by itself.
pub open spec fn lance_action(attack: LanceAttack) -> AttackType {
    match attack {
        LanceAttack::DrawAttack => AttackType::Punch,
        LanceAttack::Thrust { level } => if level < MAX_THRUSTS {
            AttackType::Punch
        } else {
            AttackType::Haymaker
        },
        LanceAttack::Charge => AttackType::Dodge,
        LanceAttack::Sweep => AttackType::Sweep,
    }
}

/// The tile that an attack of the lance is aimed at by somebody who stands
/// at `from` and faces `facing`: the tile ahead, but for a sweep, which goes
/// round the tile of the one who sweeps.
pub open spec fn lance_target(attack: LanceAttack, from: Point, facing: Direction) -> Point {
    match attack {
        LanceAttack::Sweep => from,
        _ => from.shifted(direction_delta(facing)),
    }
}

/// The intent that an attack of the lance is queued as.
pub open spec fn lance_intent(attack: LanceAttack, from: Point, facing: Direction) -> AttackIntent {
    AttackIntent {
        main: lance_action(attack),
        modifier: None,
        loc: lance_target(attack, from, facing),
        delay: attack_delay(lance_action(attack)) as i32,
    }
}

/// The intent that a press of `button` queues in `state`, if the press is
/// accepted.
pub open spec fn lance_queues(
    state: LanceState,
    button: WeaponButton,
    from: Point,
    facing: Direction,
) -> Option<AttackIntent> {
    match transition(state, button) {
        Some((attack, _)) => Some(lance_intent(attack, from, facing)),
        None => None,
    }
}

/// Turns an attack of the lance into the intent that it is queued as.
pub fn intent_of(attack: LanceAttack, from: Point, facing: Direction) -> (intent: AttackIntent)
    requires
        can_aim(from),
    ensures
        intent == lance_intent(attack, from, facing),
{
    let action = match attack {
        LanceAttack::DrawAttack => AttackType::Punch,
        LanceAttack::Thrust { level } => if level < MAX_THRUSTS {
            AttackType::Punch
        } else {
            AttackType::Haymaker
        },
        LanceAttack::Charge => AttackType::Dodge,
        LanceAttack::Sweep => AttackType::Sweep,
    };
    let loc = match attack {
        LanceAttack::Sweep => from,
        _ => Direction::point_in_direction(from, facing),
    };
    get_attack_intent(&action, loc, None)
}

impl View for Lance {
    type V = LanceState;

    closed spec fn view(&self) -> LanceState {
        self.state
    }
}

impl Lance {
    /// The level of the lance.
    pub closed spec fn level(&self) -> u8 {
        self.level
    }

    /// A lance that is put away.
    pub fn new() -> (lance: Lance)
        ensures
            lance@ == LanceState::Sheathed,
            lance.level() == 0,
    {
        Lance { state: LanceState::Sheathed, level: 0 }
    }

    /// The state the lance is in.
    pub fn state(&self) -> (state: LanceState)
        ensures
            state == self@,
    {
        self.state
    }

    /// What a press of `button` would lead to: the attack and the state that
    /// follows, or nothing where the press is rejected.
    pub fn next_state(&self, button: WeaponButton) -> (next: Option<(LanceAttack, LanceState)>)
        ensures
            next == transition(self@, button),
            next matches Some((attack, _)) ==> named_attack(attack),
    {
        match button {
            WeaponButton::Light => self.next_light_state(),
            WeaponButton::Heavy => self.next_heavy_state(),
            WeaponButton::Special => self.next_special_state(),
        }
    }

    /// What a press of the light button would lead to.
    pub fn next_light_state(&self) -> (next: Option<(LanceAttack, LanceState)>)
        ensures
            next == light_transition(self@),
            next matches Some((attack, _)) ==> named_attack(attack),
    {
        match self.state {
            LanceState::Sheathed => Some(
                (LanceAttack::DrawAttack, LanceState::Attack { prev_count: 1 }),
            ),
            LanceState::Ready => Some(
                (LanceAttack::Thrust { level: 1 }, LanceState::Attack { prev_count: 1 }),
            ),
            LanceState::Attack { prev_count } => {
                if prev_count < MAX_THRUSTS {
                    Some(
                        (
                            LanceAttack::Thrust { level: prev_count + 1 },
                            LanceState::Attack { prev_count: prev_count + 1 },
                        ),
                    )
                } else {
                    None
                }
            },
            LanceState::Running => Some(
                (LanceAttack::Thrust { level: 4 }, LanceState::Attack { prev_count: 1 }),
            ),
            LanceState::Counter => None,
            LanceState::Guard => Some(
                (LanceAttack::Thrust { level: 1 }, LanceState::Attack { prev_count: 1 }),
            ),
            _ => None,
        }
    }

    /// What a press of the heavy button would lead to.
    pub fn next_heavy_state(&self) -> (next: Option<(LanceAttack, LanceState)>)
        ensures
            next == heavy_transition(self@),
    {
        match self.state {
            LanceState::Ready => Some((LanceAttack::Sweep, LanceState::Wait)),
            LanceState::Attack { prev_count } => {
                if prev_count < MAX_THRUSTS {
                    Some((LanceAttack::Sweep, LanceState::Wait))
                } else {
                    None
                }
            },
            _ => None,
        }
    }

    /// What a press of the special button would lead to.
    pub fn next_special_state(&self) -> (next: Option<(LanceAttack, LanceState)>)
        ensures
            next == special_transition(self@),
    {
        match self.state {
            LanceState::Ready => Some((LanceAttack::Charge, LanceState::Running)),
            _ => None,
        }
    }

    /// Presses `button`: takes the transition that the table gives and tells
    /// which attack it produced, or changes nothing where the table rejects
    /// the press.
    pub fn press(&mut self, button: WeaponButton) -> (attack: Option<LanceAttack>)
        ensures
            final(self)@ == pressed(old(self)@, button),
            final(self).level() == old(self).level(),
            transition(old(self)@, button) is None ==> *final(self) == *old(self),
            attack == match transition(old(self)@, button) {
                Some((attack, _)) => Some(attack),
                None => None,
            },
    {
        match self.next_state(button) {
            Some((attack, next_state)) => {
                self.state = next_state;
                Some(attack)
            },
            None => None,
        }
    }
}

impl Weapon for Lance {
    open spec fn sheathed(&self) -> bool {
        self@ == LanceState::Sheathed
    }

    open spec fn accepts(&self, button: WeaponButton) -> bool {
        transition(self@, button) is Some
    }

    open spec fn press_leads(&self, button: WeaponButton, after: &Self) -> bool {
        after@ == pressed(self@, button) && after.level() == self.level()
    }

    open spec fn queues(&self, button: WeaponButton, from: Point, facing: Direction) -> Option<
        AttackIntent,
    > {
        lance_queues(self@, button, from, facing)
    }

    open spec fn sheathe_leads(&self, after: &Self) -> bool {
        after@ == LanceState::Sheathed && after.level() == self.level()
    }

    open spec fn reset_leads(&self, after: &Self) -> bool {
        after@ == (if self@ == LanceState::Sheathed {
            LanceState::Sheathed
        } else {
            LanceState::Ready
        }) && after.level() == self.level()
    }

    fn sheathe(&mut self) -> (done: bool)
        ensures
            (done, final(self)@) == put_away(old(self)@),
    {
        if self.state == LanceState::Sheathed {
            return false;
        }
        self.state = LanceState::Sheathed;
        true
    }

    fn reset(&mut self)
        ensures
            final(self)@ == (if old(self)@ == LanceState::Sheathed {
                LanceState::Sheathed
            } else {
                LanceState::Ready
            }),
    {
        if self.state != LanceState::Sheathed {
            self.state = LanceState::Ready;
        }
    }

    fn light_attack(&mut self, from: Point, facing: Direction) -> (intent: Option<AttackIntent>)
        ensures
            intent == lance_queues(old(self)@, WeaponButton::Light, from, facing),
            final(self)@ == pressed(old(self)@, WeaponButton::Light),
    {
        match self.press(WeaponButton::Light) {
            Some(attack) => Some(intent_of(attack, from, facing)),
            None => None,
        }
    }

    fn heavy_attack(&mut self, from: Point, facing: Direction) -> (intent: Option<AttackIntent>)
        ensures
            intent == lance_queues(old(self)@, WeaponButton::Heavy, from, facing),
            final(self)@ == pressed(old(self)@, WeaponButton::Heavy),
    {
        match self.press(WeaponButton::Heavy) {
            Some(attack) => Some(intent_of(attack, from, facing)),
            None => None,
        }
    }

    fn special_attack(&mut self, from: Point, facing: Direction) -> (intent: Option<AttackIntent>)
        ensures
            intent == lance_queues(old(self)@, WeaponButton::Special, from, facing),
            final(self)@ == pressed(old(self)@, WeaponButton::Special),
    {
        match self.press(WeaponButton::Special) {
            Some(attack) => Some(intent_of(attack, from, facing)),
            None => None,
        }
    }

    fn can_activate(&self, button: WeaponButton) -> (accepted: bool) {
        self.next_state(button).is_some()
    }

    fn attack_name(&self, button: WeaponButton) -> (name: Option<String>)
        ensures
            match transition(self@, button) {
                Some((attack, _)) => name is Some && name.unwrap()@ == lance_attack_name(attack),
                None => name is None,
            },
    {
        match self.next_state(button) {
            Some((attack, _)) => Some(get_attack_name(attack)),
            None => None,
        }
    }
}

/// Whether a lance in `state` can be put away, and the state that it is in
/// afterwards.
pub open spec fn put_away(state: LanceState) -> (bool, LanceState) {
    (state != LanceState::Sheathed, LanceState::Sheathed)
}

/// A lance that is drawn can be put away exactly once: the second attempt
/// fails. Putting it away clears the combo: whatever the count was, the next
/// press of the light button is a draw attack that starts a new combo.
pub proof fn lemma_sheathe_succeeds_once(state: LanceState)
    requires
        state != LanceState::Sheathed,
    ensures
        put_away(state) == (true, LanceState::Sheathed),
        put_away(put_away(state).1) == (false, LanceState::Sheathed),
        transition(put_away(state).1, WeaponButton::Light) == Some(
            (LanceAttack::DrawAttack, LanceState::Attack { prev_count: 1 }),
        ),
{
}

/// However often the light button is pressed, a combo never counts more
/// than `MAX_THRUSTS` thrusts, and a press at that count is rejected.
pub proof fn lemma_combo_is_capped(state: LanceState)
    requires
        state matches LanceState::Attack { prev_count } ==> prev_count <= MAX_THRUSTS,
    ensures
        pressed(state, WeaponButton::Light) matches LanceState::Attack { prev_count }
            ==> prev_count <= MAX_THRUSTS,
        state == (LanceState::Attack { prev_count: MAX_THRUSTS }) ==> transition(
            state,
            WeaponButton::Light,
        ) is None,
{
}

} // verus!
