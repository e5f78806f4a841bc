use vstd::prelude::*;
use crate::components::AttackIntent;
use crate::direction::Direction;
use crate::geometry::Point;

pub mod lance;

verus! {

#[derive(Clone, Copy, Debug, PartialEq, Eq, Structural)]
pub enum WeaponButton {
    Light,
    Heavy,
    Special,
}

/// Whether a weapon can be aimed from `from`: the tiles next to it have
/// coordinates that fit.
pub open spec fn can_aim(from: Point) -> bool {
    i32::MIN < from.x < i32::MAX && i32::MIN < from.y < i32::MAX
}

/// A weapon that turns button presses into attacks. Which press is accepted
/// in which state, and what it leads to, is the weapon's own rule; what all
/// weapons share is stated here.
pub trait Weapon: Sized {
    /// Whether the weapon is put away.
    spec fn sheathed(&self) -> bool;

    /// Whether the weapon, as it is now, accepts a press of `button`.
    spec fn accepts(&self, button: WeaponButton) -> bool;

    /// Whether `after` is the weapon once it has taken a press of `button`.
    spec fn press_leads(&self, button: WeaponButton, after: &Self) -> bool;

    /// The attack that a press of `button` queues for somebody who stands
    /// at `from` and faces `facing`: one where the weapon accepts the press,
    /// none where it rejects it.
    spec fn queues(&self, button: WeaponButton, from: Point, facing: Direction) -> Option<
        AttackIntent,
    >;

    /// Whether `after` is the weapon once a drawn weapon has been put away.
    spec fn sheathe_leads(&self, after: &Self) -> bool;

    /// Whether `after` is the weapon once its combo has been ended.
    spec fn reset_leads(&self, after: &Self) -> bool;

    /// Puts the weapon away. Succeeds unless it is put away already, in
    /// which case nothing changes.
    fn sheathe(&mut self) -> (done: bool)
        ensures
            done == !old(self).sheathed(),
            final(self).sheathed(),
            done ==> old(self).sheathe_leads(final(self)),
            !done ==> *final(self) == *old(self),
    ;

    /// Ends the combo after an action that was no attack. A sheathed weapon
    /// stays sheathed, a drawn one stays drawn.
    fn reset(&mut self)
        ensures
            final(self).sheathed() == old(self).sheathed(),
            old(self).reset_leads(final(self)),
    ;

    /// A press of the light button by somebody who stands at `from` and
    /// faces `facing`. A press that is accepted moves the weapon on and
    /// yields the attack to queue; one that is rejected changes nothing and
    /// yields nothing.
    fn light_attack(&mut self, from: Point, facing: Direction) -> (intent: Option<AttackIntent>)
        requires
            can_aim(from),
        ensures
            intent is Some <==> old(self).accepts(WeaponButton::Light),
            intent == old(self).queues(WeaponButton::Light, from, facing),
            old(self).accepts(WeaponButton::Light) ==> old(self).press_leads(
                WeaponButton::Light,
                final(self),
            ),
            !old(self).accepts(WeaponButton::Light) ==> *final(self) == *old(self),
    ;

    /// A press of the heavy button: as the light one.
    fn heavy_attack(&mut self, from: Point, facing: Direction) -> (intent: Option<AttackIntent>)
        requires
            can_aim(from),
        ensures
            intent is Some <==> old(self).accepts(WeaponButton::Heavy),
            intent == old(self).queues(WeaponButton::Heavy, from, facing),
            old(self).accepts(WeaponButton::Heavy) ==> old(self).press_leads(
                WeaponButton::Heavy,
                final(self),
            ),
            !old(self).accepts(WeaponButton::Heavy) ==> *final(self) == *old(self),
    ;

    /// A press of the special button: as the light one.
    fn special_attack(&mut self, from: Point, facing: Direction) -> (intent: Option<AttackIntent>)
        requires
            can_aim(from),
        ensures
            intent is Some <==> old(self).accepts(WeaponButton::Special),
            intent == old(self).queues(WeaponButton::Special, from, facing),
            old(self).accepts(WeaponButton::Special) ==> old(self).press_leads(
                WeaponButton::Special,
                final(self),
            ),
            !old(self).accepts(WeaponButton::Special) ==> *final(self) == *old(self),
    ;

    /// Asks whether a press of `button` would be accepted, without pressing.
    fn can_activate(&self, button: WeaponButton) -> (accepted: bool)
        ensures
            accepted == self.accepts(button),
    ;

    /// The name of the attack that a press of `button` would produce.
    fn attack_name(&self, button: WeaponButton) -> (name: Option<String>)
        ensures
            name is Some <==> self.accepts(button),
    ;
}

} // verus!
