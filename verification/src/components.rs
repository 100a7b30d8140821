//! Components of entities that hold no floating-point data.
use vstd::prelude::*;

verus! {

/// Marks the player controlled by this client.
#[derive(Clone, Copy, Debug, Default, Hash)]
pub struct LocalPlayer;

/// Marks a player.
#[derive(Clone, Copy, Debug, Default, Hash)]
pub struct Player;

/// Marks an entity.
#[derive(Clone, Copy, Debug, Default, Hash)]
pub struct Entity;

/// Marks an entity that falls.
#[derive(Clone, Copy, Debug, Default, Hash)]
pub struct GravityAffected;

/// Whether an entity stands on the ground.
#[derive(Clone, Copy, Debug, Hash, PartialEq, Eq, Structural)]
pub struct IsOnGround(pub bool);

impl Default for IsOnGround {
    /// Not on the ground.
    fn default() -> (d: IsOnGround)
        ensures
            !d.0,
    {
        IsOnGround(false)
    }
}

/// Names the entity model an entity is drawn with.
#[derive(Clone, Debug, PartialEq, Eq)]
pub struct ModelView(pub String);

/// The inventory slot the player holds.
#[derive(Clone, Copy, Debug, PartialEq, Eq, Structural)]
pub struct HeldBlock(pub usize);

impl Default for HeldBlock {
    /// The first slot.
    fn default() -> (d: HeldBlock)
        ensures
            d.0 == 0,
    {
        HeldBlock(0)
    }
}

/// How the local player moves through the world.
#[derive(Clone, Copy, Debug, PartialEq, Eq, Structural)]
pub enum Gamemode {
    /// Falls, collides and can change blocks.
    Survival,
    /// Flies through blocks and changes nothing.
    Spectator,
}

/// The other gamemode.
pub open spec fn other_gamemode(g: Gamemode) -> Gamemode {
    match g {
        Gamemode::Survival => Gamemode::Spectator,
        Gamemode::Spectator => Gamemode::Survival,
    }
}

/// Switches the local player's gamemode when the toggle key was just
/// pressed, and gives the gamemode switched to; otherwise changes nothing and
/// gives `None`. The caller changes the player's other components by the
/// gamemode given: entering spectator mode takes away gravity, hitbox and
/// looked-at block and restores the default fly speed; entering survival
/// mode gives gravity and the player hitbox back; either resets velocity.
pub fn toggle_gamemode(gamemode: &mut Gamemode, toggle_pressed: bool) -> (r: Option<Gamemode>)
    ensures
        !toggle_pressed ==> *final(gamemode) == *old(gamemode) && r is None,
        toggle_pressed ==> *final(gamemode) == other_gamemode(*old(gamemode)) && r == Some(*final(gamemode)),
{
    if !toggle_pressed {
        return None;
    }
    let next = match *gamemode {
        Gamemode::Survival => Gamemode::Spectator,
        Gamemode::Spectator => Gamemode::Survival,
    };
    *gamemode = next;
    Some(next)
}

/// Toggling the gamemode twice comes back to where it started.
pub proof fn lemma_toggle_twice(g: Gamemode)
    ensures
        other_gamemode(other_gamemode(g)) == g,
{
}

} // verus!
