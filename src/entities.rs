use vstd::prelude::*;

verus! {

/// Health at or below which a player is out of the game.
pub const HEALTH_FLOOR: u64 = 5000;

/// Health a player starts with unless configured otherwise.
pub const DEFAULT_STARTING_HEALTH: u64 = 10000;

/// Number of ticks a player must wait between two shots.
pub const FIRE_COOLDOWN: u32 = 25;

/// Age, in ticks, past which a bullet is removed.
pub const MAX_BULLET_AGE: u32 = 500;

/// Stable reference to a body of the physics world: the slot index and the
/// generation of a generational arena handle.
#[derive(Clone, Copy, Debug, PartialEq, Eq, Structural, Hash)]
pub struct BodyKey {
    pub index: u32,
    pub generation: u32,
}

/// A joined player: its body, the facing angle it last aimed at (the bit
/// pattern of an `f32`, in radians), ticks left before it may fire again, and
/// its health.
#[derive(Clone, Copy, Debug, PartialEq, Eq, Structural)]
pub struct PhysicsPlayerInfo {
    pub conn: u64,
    pub body: BodyKey,
    pub dir: u32,
    pub bullet_cooldown: u32,
    pub health: u64,
}

/// A live bullet and the number of ticks it has been aged.
#[derive(Clone, Copy, Debug, PartialEq, Eq, Structural)]
pub struct BulletEntity {
    pub body: BodyKey,
    pub age: u32,
}

/// Health after one hit of `damage`: reduced by `damage`, but never below
/// the floor.
pub open spec fn damaged_health(health: int, damage: int) -> int {
    if health - damage >= HEALTH_FLOOR {
        health - damage
    } else {
        HEALTH_FLOOR as int
    }
}

/// Applies one hit of `damage` to `health`, clamping at [`HEALTH_FLOOR`].
pub fn apply_damage(health: u64, damage: u64) -> (r: u64)
    ensures
        r == damaged_health(health as int, damage as int),
{
    if health >= damage && health - damage >= HEALTH_FLOOR {
        health - damage
    } else {
        HEALTH_FLOOR
    }
}

/// Health above the floor: zero for a player that is out, and the share of
/// health that a snapshot reports otherwise.
pub fn health_above_floor(health: u64) -> (r: u64)
    ensures
        r == if health > HEALTH_FLOOR { health - HEALTH_FLOOR } else { 0 },
{
    if health > HEALTH_FLOOR {
        health - HEALTH_FLOOR
    } else {
        0
    }
}

/// Name shown for a player that chose none.
pub open spec fn placeholder_name() -> Seq<char> {
    seq!['U', 'n', 'n', 'a', 'm', 'e', 'd']
}

/// The name a player is shown under: the chosen one, or the placeholder when
/// it is empty.
pub open spec fn shown_name(name: Seq<char>) -> Seq<char> {
    if name.len() == 0 {
        placeholder_name()
    } else {
        name
    }
}

/// Replaces an empty username by the placeholder `Unnamed`.
pub fn display_name(name: String) -> (r: String)
    ensures
        r@ == shown_name(name@),
{
    if name.as_str().unicode_len() == 0 {
        let r = String::from_str("Unnamed");
        proof {
            reveal_strlit("Unnamed");
            assert(r@ =~= placeholder_name());
        }
        r
    } else {
        name
    }
}

/// A screen-axis direction in which a movement impulse is applied.
#[derive(Clone, Copy, Debug, PartialEq, Eq, Structural)]
pub enum MoveDirection {
    Up,
    Left,
    Down,
    Right,
}

impl MoveDirection {
    pub open spec fn spec_unit(self) -> (int, int) {
        match self {
            MoveDirection::Up => (0, -1),
            MoveDirection::Left => (-1, 0),
            MoveDirection::Down => (0, 1),
            MoveDirection::Right => (1, 0),
        }
    }

    /// The unit vector of the direction in arena coordinates (y grows
    /// downwards).
    pub fn unit(&self) -> (r: (i32, i32))
        ensures
            r.0 == self.spec_unit().0,
            r.1 == self.spec_unit().1,
    {
        match self {
            MoveDirection::Up => (0, -1),
            MoveDirection::Left => (-1, 0),
            MoveDirection::Down => (0, 1),
            MoveDirection::Right => (1, 0),
        }
    }
}

/// The impulses of the movement flags, in the order up, left, down, right.
pub open spec fn moves_of(up: bool, left: bool, down: bool, right: bool) -> Seq<MoveDirection> {
    (if up { seq![MoveDirection::Up] } else { seq![] })
        + (if left { seq![MoveDirection::Left] } else { seq![] })
        + (if down { seq![MoveDirection::Down] } else { seq![] })
        + (if right { seq![MoveDirection::Right] } else { seq![] })
}

/// One impulse for each movement flag that is set.
pub fn movement_impulses(up: bool, left: bool, down: bool, right: bool) -> (r: Vec<MoveDirection>)
    ensures
        r@ == moves_of(up, left, down, right),
{
    let mut r: Vec<MoveDirection> = Vec::new();
    if up {
        r.push(MoveDirection::Up);
    }
    if left {
        r.push(MoveDirection::Left);
    }
    if down {
        r.push(MoveDirection::Down);
    }
    if right {
        r.push(MoveDirection::Right);
    }
    assert(r@ =~= moves_of(up, left, down, right));
    r
}

} // verus!
