//! The state of a level while it is played: the keys that are held, the
//! jumps that are left, what the contacts of a physics step mean, and where
//! the camera looks.

use vstd::prelude::*;
use crate::directions::{Directions, Key};
use crate::world::{WorldPlan, BLOCK_SIZE};

verus! {

/// The change of velocity along `y` that a jump gives; `y` grows downwards.
pub const JUMP_VELOCITY: i32 = -200;

/// The change of velocity along `x` that a held direction gives at each
/// step.
pub const WALK_VELOCITY: i32 = 10;

/// The width of the player's image.
pub const PLAYER_WIDTH: i32 = 16;

/// The height of the player's image.
pub const PLAYER_HEIGHT: i32 = 32;

/// The width and the height of the window.
pub const VIEWPORT: i32 = 640;

/// The number of jumps that a player has between two contacts.
pub const MAX_JUMPS: u32 = 1;

/// A collider of the physics world: the player's, or that of the static
/// body with the given index in the world's plan.
#[derive(PartialEq, Eq, Structural, Clone, Copy, Debug)]
pub enum Collider {
    Player,
    Static(usize),
}

/// What a physics step reports of two colliders: that they began to touch,
/// or that they ceased to.
#[derive(PartialEq, Eq, Structural, Clone, Copy, Debug)]
pub enum ContactEvent {
    Started(Collider, Collider),
    Stopped(Collider, Collider),
}

/// The images of the player.
#[derive(PartialEq, Eq, Structural, Clone, Copy, Debug)]
pub enum Sprite {
    Flying,
    Walking,
    FlyingInverted,
    WalkingInverted,
}

/// The image of a player who is in the air or not, and looks to the left
/// (`inverted`) or not.
pub fn get_player(is_flying: bool, inverted: bool) -> (r: Sprite)
    ensures
        r == (if is_flying {
            if inverted {
                Sprite::FlyingInverted
            } else {
                Sprite::Flying
            }
        } else {
            if inverted {
                Sprite::WalkingInverted
            } else {
                Sprite::Walking
            }
        }),
{
    match (is_flying, inverted) {
        (true, false) => Sprite::Flying,
        (false, false) => Sprite::Walking,
        (true, true) => Sprite::FlyingInverted,
        (false, true) => Sprite::WalkingInverted,
    }
}

/// The directions whose keys are held.
#[derive(PartialEq, Eq, Structural, Clone, Copy, Debug)]
pub struct Pressed {
    pub left: bool,
    pub up: bool,
    pub right: bool,
    pub down: bool,
}

impl Pressed {
    /// Whether the key of `d` is held.
    pub open spec fn holds(self, d: Directions) -> bool {
        match d {
            Directions::Left => self.left,
            Directions::Up => self.up,
            Directions::Right => self.right,
            Directions::Down => self.down,
        }
    }

    /// The part that `d` has in the sum of the held directions.
    pub open spec fn part(self, d: Directions) -> (int, int) {
        if self.holds(d) {
            d.unit()
        } else {
            (0, 0)
        }
    }

    /// The sum of the unit vectors of the held directions.
    pub open spec fn sum(self) -> (int, int) {
        (
            self.part(Directions::Left).0 + self.part(Directions::Up).0 + self.part(
                Directions::Right,
            ).0 + self.part(Directions::Down).0,
            self.part(Directions::Left).1 + self.part(Directions::Up).1 + self.part(
                Directions::Right,
            ).1 + self.part(Directions::Down).1,
        )
    }

    /// No key is held.
    pub fn new() -> (r: Pressed)
        ensures
            forall|d: Directions| !r.holds(d),
    {
        Pressed { left: false, up: false, right: false, down: false }
    }

    /// Whether the key of `d` is held.
    pub fn contains(&self, d: Directions) -> (r: bool)
        ensures
            r == self.holds(d),
    {
        match d {
            Directions::Left => self.left,
            Directions::Up => self.up,
            Directions::Right => self.right,
            Directions::Down => self.down,
        }
    }

    /// The held directions once the key of `d` is held (`held`) or not.
    pub open spec fn with(self, d: Directions, held: bool) -> Pressed {
        match d {
            Directions::Left => Pressed { left: held, ..self },
            Directions::Up => Pressed { up: held, ..self },
            Directions::Right => Pressed { right: held, ..self },
            Directions::Down => Pressed { down: held, ..self },
        }
    }

    /// The key of `d` went down.
    pub fn insert(&mut self, d: Directions)
        ensures
            *final(self) == old(self).with(d, true),
    {
        match d {
            Directions::Left => self.left = true,
            Directions::Up => self.up = true,
            Directions::Right => self.right = true,
            Directions::Down => self.down = true,
        }
    }

    /// The key of `d` went up.
    pub fn remove(&mut self, d: Directions)
        ensures
            *final(self) == old(self).with(d, false),
    {
        match d {
            Directions::Left => self.left = false,
            Directions::Up => self.up = false,
            Directions::Right => self.right = false,
            Directions::Down => self.down = false,
        }
    }

    /// The sum of the unit vectors of the held directions.
    pub fn momentum(&self) -> (r: (i32, i32))
        ensures
            r.0 == self.sum().0,
            r.1 == self.sum().1,
    {
        let mut x: i32 = 0;
        let mut y: i32 = 0;
        if self.left {
            x = x - 1;
        }
        if self.up {
            y = y - 1;
        }
        if self.right {
            x = x + 1;
        }
        if self.down {
            y = y + 1;
        }
        (x, y)
    }
}

/// The event says that the player and the exit began to touch.
pub open spec fn is_exit_contact(e: ContactEvent, end: Option<usize>) -> bool {
    &&& end matches Some(k)
    &&& e matches ContactEvent::Started(a, b)
    &&& ((a == Collider::Player && b == Collider::Static(k)) || (a == Collider::Static(k) && b
        == Collider::Player))
}

/// The event says that the player and another collider began to touch.
pub open spec fn touches_player(e: ContactEvent) -> bool {
    e matches ContactEvent::Started(a, b) && (a == Collider::Player || b == Collider::Player)
}

/// The number of events that are looked at: those before the first contact
/// of player and exit, or all if there is none.
pub open spec fn looked_at(events: Seq<ContactEvent>, end: Option<usize>) -> int
    decreases events.len(),
{
    if events.len() == 0 {
        0
    } else if is_exit_contact(events[0], end) {
        0
    } else {
        1 + looked_at(events.subrange(1, events.len() as int), end)
    }
}

/// One of the first `n` events says that the player began to touch
/// something.
pub open spec fn touched(events: Seq<ContactEvent>, n: int) -> bool {
    exists|j: int| 0 <= j < n && j < events.len() && touches_player(#[trigger] events[j])
}

/// Where the camera looks along one axis: `wanted`, but not below 0, and
/// then not beyond the point from which the window shows the level's far
/// edge.
pub open spec fn clamped(wanted: int, level_pixels: int) -> int {
    let low = if wanted < 0 {
        0
    } else {
        wanted
    };
    if low > level_pixels - VIEWPORT {
        level_pixels - VIEWPORT
    } else {
        low
    }
}

/// What is drawn of the player in one frame.
#[derive(Clone, Copy, Debug)]
pub struct Frame {
    /// The upper left corner of what the window shows.
    pub camera: (i64, i64),
    /// The upper left corner of the player's image.
    pub player: (i64, i64),
    /// The player's image.
    pub sprite: Sprite,
}

/// The state of a level that is being played.
#[derive(Clone, Copy, Debug)]
pub struct Menu {
    /// Where the player was drawn last.
    pub player_pos: (i64, i64),
    /// The directions whose keys are held.
    pub pressed: Pressed,
    /// Whether the jump key is held.
    pub jump_held: bool,
    /// The jumps made since the player last touched something.
    pub jump_count: u32,
    /// The jumps that the player has between two contacts.
    pub max_jumps: u32,
    /// Whether the last physics step found the player touching nothing new.
    pub is_flying: bool,
    /// The exit's static body, if the level has an exit.
    pub end_collider: Option<usize>,
    /// Whether the player moved to the left when last drawn.
    pub render_going_to_left: bool,
    /// The level's id.
    pub current_level: u32,
    /// The number of columns and of rows of the level.
    pub level_size: (usize, usize),
}

impl Menu {
    /// The numbers of the state are within the limits that drawing and
    /// progressing need: positions and sizes fit 32 bits, and a next level
    /// id exists.
    pub open spec fn in_limits(self) -> bool {
        &&& i32::MIN <= self.player_pos.0 <= i32::MAX + PLAYER_WIDTH / 2
        &&& i32::MIN <= self.player_pos.1 <= i32::MAX
        &&& self.level_size.0 * BLOCK_SIZE <= i32::MAX
        &&& self.level_size.1 * BLOCK_SIZE <= i32::MAX
        &&& self.current_level < u32::MAX
    }

    /// The state in which the level `current_level` begins: the player
    /// stands where the plan puts the body, looks to the right, holds no key
    /// and has all jumps.
    pub fn new(plan: &WorldPlan, current_level: u32) -> (m: Menu)
        requires
            plan.player.0 <= i32::MAX,
            plan.player.1 <= i32::MAX,
            plan.level_size.0 * BLOCK_SIZE <= i32::MAX,
            plan.level_size.1 * BLOCK_SIZE <= i32::MAX,
            current_level < u32::MAX,
        ensures
            m.in_limits(),
            m.player_pos.0 == plan.player.0,
            m.player_pos.1 == plan.player.1,
            forall|d: Directions| !m.pressed.holds(d),
            !m.jump_held,
            m.jump_count == 0,
            m.max_jumps == MAX_JUMPS,
            !m.is_flying,
            m.end_collider == plan.end_collider,
            !m.render_going_to_left,
            m.current_level == current_level,
            m.level_size == plan.level_size,
    {
        Menu {
            player_pos: (plan.player.0 as i64, plan.player.1 as i64),
            pressed: Pressed::new(),
            jump_held: false,
            jump_count: 0,
            max_jumps: MAX_JUMPS,
            is_flying: false,
            end_collider: plan.end_collider,
            render_going_to_left: false,
            current_level,
            level_size: plan.level_size,
        }
    }

    /// The change of velocity to give the player's body before a physics
    /// step: `WALK_VELOCITY` along `x` for each held direction, to its side,
    /// and nothing along `y`.
    pub fn walk_force(&self) -> (r: (i32, i32))
        ensures
            r.0 == self.pressed.sum().0 * WALK_VELOCITY,
            r.1 == 0,
    {
        let momentum = self.pressed.momentum();
        (momentum.0 * WALK_VELOCITY, 0)
    }

    /// Whether the key makes a jump: the jump key goes down, was not held,
    /// and a jump is left.
    pub open spec fn jumps_on(self, key: Key, is_down: bool) -> bool {
        key == Key::W && is_down && !self.jump_held && self.jump_count < self.max_jumps
    }

    /// The state after a key went down or up.
    pub open spec fn after_key(self, key: Key, is_down: bool) -> Menu {
        Menu {
            jump_count: if self.jumps_on(key, is_down) {
                (self.jump_count + 1) as u32
            } else {
                self.jump_count
            },
            jump_held: if key == Key::W {
                is_down
            } else {
                self.jump_held
            },
            pressed: match Directions::of_key(key) {
                Some(d) => self.pressed.with(d, is_down),
                None => self.pressed,
            },
            ..self
        }
    }

    /// The state after the jump key was pressed and let go `n` times.
    pub open spec fn after_jumps(self, n: nat) -> Menu
        decreases n,
    {
        if n == 0 {
            self
        } else {
            self.after_key(Key::W, true).after_key(Key::W, false).after_jumps((n - 1) as nat)
        }
    }

    /// The state after the contact events of one physics step.
    pub open spec fn after_contacts(self, contacts: Seq<ContactEvent>) -> Menu {
        let landed = touched(contacts, looked_at(contacts, self.end_collider));
        Menu {
            is_flying: !landed,
            jump_count: if landed {
                0
            } else {
                self.jump_count
            },
            ..self
        }
    }

    /// Takes a key that went down or up. A bound direction is held from
    /// then on, or no longer. The jump key, when it goes down and was not
    /// held, makes a jump if one is left: the result is then the change of
    /// velocity to give the player's body.
    pub fn event(&mut self, key: Key, is_down: bool) -> (r: Option<(i32, i32)>)
        ensures
            *final(self) == old(self).after_key(key, is_down),
            r == (if old(self).jumps_on(key, is_down) {
                Some((0i32, JUMP_VELOCITY))
            } else {
                None
            }),
    {
        let mut impulse = None;
        if key == Key::W {
            if is_down && !self.jump_held && self.jump_count < self.max_jumps {
                self.jump_count += 1;
                impulse = Some((0, JUMP_VELOCITY));
            }
            self.jump_held = is_down;
        } else if let Some(d) = Directions::try_from_key(key) {
            if is_down {
                self.pressed.insert(d);
            } else {
                self.pressed.remove(d);
            }
        }
        impulse
    }

    /// Takes the contact events of one physics step, in order. If one says
    /// that the player and the exit began to touch, the result is the id of
    /// the level to play next, and the events after it are not looked at.
    /// The player is taken to be in the air unless an event that is looked at
    /// says that the player began to touch something, which also gives all
    /// jumps back.
    pub fn update(&mut self, contacts: &Vec<ContactEvent>) -> (r: Option<u32>)
        requires
            old(self).current_level < u32::MAX,
        ensures
            r == (if looked_at(contacts@, old(self).end_collider) < contacts.len() {
                Some((old(self).current_level + 1) as u32)
            } else {
                None
            }),
            *final(self) == old(self).after_contacts(contacts@),
    {
        self.is_flying = true;
        let mut i: usize = 0;
        assert(contacts@.subrange(0, contacts.len() as int) =~= contacts@);
        while i < contacts.len()
            invariant
                i <= contacts.len(),
                self.current_level < u32::MAX,
                looked_at(contacts@, self.end_collider) == i + looked_at(
                    contacts@.subrange(i as int, contacts.len() as int),
                    self.end_collider,
                ),
                self.is_flying == !touched(contacts@, i as int),
                self.jump_count == (if self.is_flying {
                    old(self).jump_count
                } else {
                    0
                }),
                self.player_pos == old(self).player_pos,
                self.pressed == old(self).pressed,
                self.jump_held == old(self).jump_held,
                self.max_jumps == old(self).max_jumps,
                self.end_collider == old(self).end_collider,
                self.render_going_to_left == old(self).render_going_to_left,
                self.current_level == old(self).current_level,
                self.level_size == old(self).level_size,
            decreases contacts.len() - i,
        {
            let ghost rest = contacts@.subrange(i as int, contacts.len() as int);
            assert(rest[0] == contacts@[i as int]);
            assert(rest.subrange(1, rest.len() as int) =~= contacts@.subrange(
                i as int + 1,
                contacts.len() as int,
            ));
            match contacts[i] {
                ContactEvent::Started(x, y) => {
                    if let Some(end) = self.end_collider {
                        if (x == Collider::Player && y == Collider::Static(end)) || (x
                            == Collider::Static(end) && y == Collider::Player) {
                            return Some(self.current_level + 1);
                        }
                    }
                    if x == Collider::Player || y == Collider::Player {
                        self.jump_count = 0;
                        self.is_flying = false;
                    }
                },
                ContactEvent::Stopped(_, _) => {},
            }
            i += 1;
        }
        assert(contacts@.subrange(i as int, contacts.len() as int).len() == 0);
        None
    }

    /// Takes the position of the player's collider after a physics step and
    /// says what to draw: the camera looks at the player as last drawn, but
    /// not beyond the level's edges; the player's image stands half its
    /// width to the right of the collider's position, flies if the player is
    /// in the air, and looks left if it stands further left than when last
    /// drawn.
    pub fn draw(&mut self, collider_pos: (i32, i32)) -> (f: Frame)
        requires
            old(self).in_limits(),
        ensures
            final(self).in_limits(),
            f.camera.0 == clamped(
                old(self).player_pos.0 - VIEWPORT / 2 + PLAYER_WIDTH / 2,
                old(self).level_size.0 * BLOCK_SIZE,
            ),
            f.camera.1 == clamped(
                old(self).player_pos.1 - VIEWPORT / 2,
                old(self).level_size.1 * BLOCK_SIZE,
            ),
            f.player.0 == collider_pos.0 + PLAYER_WIDTH / 2,
            f.player.1 == collider_pos.1,
            final(self).player_pos == f.player,
            final(self).render_going_to_left == (old(self).player_pos.0 > f.player.0),
            f.sprite == (if old(self).is_flying {
                if final(self).render_going_to_left {
                    Sprite::FlyingInverted
                } else {
                    Sprite::Flying
                }
            } else {
                if final(self).render_going_to_left {
                    Sprite::WalkingInverted
                } else {
                    Sprite::Walking
                }
            }),
            final(self).pressed == old(self).pressed,
            final(self).jump_held == old(self).jump_held,
            final(self).jump_count == old(self).jump_count,
            final(self).max_jumps == old(self).max_jumps,
            final(self).is_flying == old(self).is_flying,
            final(self).end_collider == old(self).end_collider,
            final(self).current_level == old(self).current_level,
            final(self).level_size == old(self).level_size,
    {
        let camera = (
            clamp(
                self.player_pos.0 - (VIEWPORT / 2) as i64 + (PLAYER_WIDTH / 2) as i64,
                (self.level_size.0 * BLOCK_SIZE) as i64,
            ),
            clamp(
                self.player_pos.1 - (VIEWPORT / 2) as i64,
                (self.level_size.1 * BLOCK_SIZE) as i64,
            ),
        );
        let pos = (collider_pos.0 as i64 + (PLAYER_WIDTH / 2) as i64, collider_pos.1 as i64);
        self.render_going_to_left = self.player_pos.0 > pos.0;
        let sprite = get_player(self.is_flying, self.render_going_to_left);
        self.player_pos = pos;
        Frame { camera, player: pos, sprite }
    }
}

/// The jump budget: pressing the jump key `n` times without a contact in
/// between makes as many jumps as were left and no more, and a contact
/// event that names the player gives all jumps back.
pub proof fn lemma_jump_budget(m: Menu, n: nat, contacts: Seq<ContactEvent>)
    requires
        !m.jump_held,
        m.jump_count <= m.max_jumps,
    ensures
        m.after_jumps(n).jump_count == (if m.jump_count + n <= m.max_jumps {
            m.jump_count + n
        } else {
            m.max_jumps as int
        }),
        m.after_jumps(n).max_jumps == m.max_jumps,
        !m.after_jumps(n).jump_held,
        touched(contacts, looked_at(contacts, m.end_collider)) ==> m.after_contacts(
            contacts,
        ).jump_count == 0,
    decreases n,
{
    if n > 0 {
        let next = m.after_key(Key::W, true).after_key(Key::W, false);
        lemma_jump_budget(next, (n - 1) as nat, contacts);
    }
}

/// Where the camera looks along one axis of a level of `level_pixels`,
/// wanting to look at `wanted`.
pub fn clamp(wanted: i64, level_pixels: i64) -> (r: i64)
    requires
        i64::MIN + VIEWPORT <= level_pixels,
    ensures
        r == clamped(wanted as int, level_pixels as int),
        level_pixels >= VIEWPORT ==> 0 <= r <= level_pixels - VIEWPORT,
{
    let mut cam = wanted;
    if cam < 0 {
        cam = 0;
    }
    if cam > level_pixels - VIEWPORT as i64 {
        cam = level_pixels - VIEWPORT as i64;
    }
    cam
}

} // verus!
