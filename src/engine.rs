use vstd::prelude::*;
use crate::directory::{empty_session, PlayerInfo, SessionDirectory, SessionView};
use crate::entities::{
    apply_damage, damaged_health, display_name, movement_impulses, moves_of, shown_name,
    BodyKey, BulletEntity, MoveDirection, PhysicsPlayerInfo, FIRE_COOLDOWN, HEALTH_FLOOR,
    MAX_BULLET_AGE,
};

verus! {

broadcast use Seq::group_seq_extra, vstd::seq_lib::group_seq_lib_default;

/// The integer part of the server configuration.
#[derive(Clone, Copy, Debug, PartialEq, Eq, Structural)]
pub struct GameRules {
    pub starting_health: u64,
    pub bullet_damage: u64,
}

impl GameRules {
    pub open spec fn wf(self) -> bool {
        self.starting_health > HEALTH_FLOOR
    }

    /// Rules with the given starting health and damage per hit; `None` when
    /// a player would start at or below the health floor.
    pub fn new(starting_health: u64, bullet_damage: u64) -> (r: Option<GameRules>)
        ensures
            r.is_some() == (starting_health > HEALTH_FLOOR),
            r.is_some() ==> r.unwrap() == (GameRules { starting_health, bullet_damage }),
            r.is_some() ==> r.unwrap().wf(),
    {
        if starting_health > HEALTH_FLOOR {
            Some(GameRules { starting_health, bullet_damage })
        } else {
            None
        }
    }
}

/// The intent a client sends with each game action.
#[derive(Clone, Copy, Debug, PartialEq, Eq, Structural)]
pub struct GameAction {
    /// Move up.
    pub w: bool,
    /// Move left.
    pub a: bool,
    /// Move down.
    pub s: bool,
    /// Move right.
    pub d: bool,
    /// Aim angle in radians, as the bit pattern of an `f32`.
    pub dir: u32,
    /// Fire intent.
    pub click: bool,
}

/// What the host must do to the physics world for one accepted action.
pub struct ActionPlan {
    /// Body of the acting player.
    pub body: BodyKey,
    /// One impulse of the configured magnitude per entry.
    pub impulses: Vec<MoveDirection>,
    /// Whether a bullet is to be spawned (and the recoil applied).
    pub fire: bool,
}

/// A player as seen by another one.
pub struct EnemyInfo {
    pub conn: u64,
    pub body: BodyKey,
    pub health: u64,
    pub dir: u32,
    pub username: String,
}

pub struct EnemyModel {
    pub conn: u64,
    pub body: BodyKey,
    pub health: u64,
    pub dir: u32,
    pub username: Seq<char>,
}

impl View for EnemyInfo {
    type V = EnemyModel;

    open spec fn view(&self) -> EnemyModel {
        EnemyModel {
            conn: self.conn,
            body: self.body,
            health: self.health,
            dir: self.dir,
            username: self.username@,
        }
    }
}

/// The entities one connection is shown after a tick; the host adds the
/// positions of the bodies.
pub struct PhysicsStateResponse {
    pub recipient: u64,
    pub body: BodyKey,
    pub health: u64,
    pub enemies: Vec<EnemyInfo>,
    pub bullets: Vec<BodyKey>,
}

pub open spec fn enemy_models(v: Seq<EnemyInfo>) -> Seq<EnemyModel> {
    v.map_values(|e: EnemyInfo| e@)
}

pub struct SnapshotModel {
    pub recipient: u64,
    pub body: BodyKey,
    pub health: u64,
    pub enemies: Seq<EnemyModel>,
    pub bullets: Seq<BodyKey>,
}

impl View for PhysicsStateResponse {
    type V = SnapshotModel;

    open spec fn view(&self) -> SnapshotModel {
        SnapshotModel {
            recipient: self.recipient,
            body: self.body,
            health: self.health,
            enemies: enemy_models(self.enemies@),
            bullets: self.bullets@,
        }
    }
}

/// Outcome of one tick.
pub struct TickReport {
    /// Bodies of the bullets that grew too old; the host releases them.
    pub expired_bullets: Vec<BodyKey>,
    /// Players whose health reached the floor: each gets the game-over
    /// notice, and the host releases its body.
    pub game_over: Vec<PhysicsPlayerInfo>,
    /// One snapshot per remaining player.
    pub snapshots: Vec<PhysicsStateResponse>,
}

// ---- model of the game state ----

/// Connection identities of a sequence of players, in order.
pub open spec fn conns(ps: Seq<PhysicsPlayerInfo>) -> Seq<u64> {
    ps.map_values(|p: PhysicsPlayerInfo| p.conn)
}

/// The connections that have a player.
pub open spec fn player_ids(ps: Seq<PhysicsPlayerInfo>) -> Set<u64> {
    conns(ps).to_set()
}

pub open spec fn has_player(ps: Seq<PhysicsPlayerInfo>, conn: u64) -> bool {
    exists|i: int| 0 <= i < ps.len() && ps[i].conn == conn
}

/// A player as it enters the game.
pub open spec fn fresh_player(conn: u64, body: BodyKey, rules: GameRules) -> PhysicsPlayerInfo {
    PhysicsPlayerInfo { conn, body, dir: 0, bullet_cooldown: 0, health: rules.starting_health }
}

/// A player after its cooldown went down by one tick, not below zero.
pub open spec fn cooled_down(p: PhysicsPlayerInfo) -> PhysicsPlayerInfo {
    PhysicsPlayerInfo {
        bullet_cooldown: if p.bullet_cooldown > 0 { (p.bullet_cooldown - 1) as u32 } else { 0 },
        ..p
    }
}

pub open spec fn cool_all(ps: Seq<PhysicsPlayerInfo>) -> Seq<PhysicsPlayerInfo> {
    ps.map_values(|p: PhysicsPlayerInfo| cooled_down(p))
}

/// A player after one collision of `key`: damaged if it owns that body.
pub open spec fn hit_player(p: PhysicsPlayerInfo, key: BodyKey, damage: u64) -> PhysicsPlayerInfo {
    if p.body == key {
        PhysicsPlayerInfo { health: damaged_health(p.health as int, damage as int) as u64, ..p }
    } else {
        p
    }
}

pub open spec fn hit_all(ps: Seq<PhysicsPlayerInfo>, key: BodyKey, damage: u64) -> Seq<PhysicsPlayerInfo> {
    ps.map_values(|p: PhysicsPlayerInfo| hit_player(p, key, damage))
}

/// Players after each recorded collision, in order of recording.
pub open spec fn apply_hits(ps: Seq<PhysicsPlayerInfo>, hits: Seq<BodyKey>, damage: u64) -> Seq<
    PhysicsPlayerInfo,
>
    decreases hits.len(),
{
    if hits.len() == 0 {
        ps
    } else {
        hit_all(apply_hits(ps, hits.drop_last(), damage), hits.last(), damage)
    }
}

/// Players after the cooldowns of a tick and then the recorded collisions.
pub open spec fn after_hits(ps: Seq<PhysicsPlayerInfo>, hits: Seq<BodyKey>, damage: u64) -> Seq<
    PhysicsPlayerInfo,
> {
    apply_hits(cool_all(ps), hits, damage)
}

pub open spec fn survivors(ps: Seq<PhysicsPlayerInfo>) -> Seq<PhysicsPlayerInfo> {
    ps.filter(|p: PhysicsPlayerInfo| p.health > HEALTH_FLOOR)
}

pub open spec fn eliminated(ps: Seq<PhysicsPlayerInfo>) -> Seq<PhysicsPlayerInfo> {
    ps.filter(|p: PhysicsPlayerInfo| p.health <= HEALTH_FLOOR)
}

pub open spec fn aged(bs: Seq<BulletEntity>) -> Seq<BulletEntity> {
    bs.map_values(|b: BulletEntity| BulletEntity { body: b.body, age: (b.age + 1) as u32 })
}

/// The bullets that remain after one tick.
pub open spec fn next_bullets(bs: Seq<BulletEntity>) -> Seq<BulletEntity> {
    aged(bs).filter(|b: BulletEntity| b.age <= MAX_BULLET_AGE)
}

/// The bodies of the bullets that one tick removes.
pub open spec fn expired_bodies(bs: Seq<BulletEntity>) -> Seq<BodyKey> {
    aged(bs).filter(|b: BulletEntity| b.age > MAX_BULLET_AGE).map_values(|b: BulletEntity| b.body)
}

pub open spec fn bullet_bodies(bs: Seq<BulletEntity>) -> Seq<BodyKey> {
    bs.map_values(|b: BulletEntity| b.body)
}

/// The session entry of `id`, or the sentinel entry.
pub open spec fn session_of(sessions: Map<u64, SessionView>, id: u64) -> SessionView {
    if sessions.contains_key(id) {
        sessions[id]
    } else {
        empty_session()
    }
}

pub open spec fn enemy_model(p: PhysicsPlayerInfo, sessions: Map<u64, SessionView>) -> EnemyModel {
    EnemyModel {
        conn: p.conn,
        body: p.body,
        health: p.health,
        dir: p.dir,
        username: session_of(sessions, p.conn).username,
    }
}

/// Every player but the one of `conn`.
pub open spec fn others(ps: Seq<PhysicsPlayerInfo>, conn: u64) -> Seq<PhysicsPlayerInfo> {
    ps.filter(|p: PhysicsPlayerInfo| p.conn != conn)
}

pub open spec fn enemies_of(
    ps: Seq<PhysicsPlayerInfo>,
    conn: u64,
    sessions: Map<u64, SessionView>,
) -> Seq<EnemyModel> {
    others(ps, conn).map_values(|p: PhysicsPlayerInfo| enemy_model(p, sessions))
}

/// The snapshot that player `p` is sent.
pub open spec fn snapshot_of(
    p: PhysicsPlayerInfo,
    ps: Seq<PhysicsPlayerInfo>,
    bs: Seq<BulletEntity>,
    sessions: Map<u64, SessionView>,
) -> SnapshotModel {
    SnapshotModel {
        recipient: p.conn,
        body: p.body,
        health: p.health,
        enemies: enemies_of(ps, p.conn, sessions),
        bullets: bullet_bodies(bs),
    }
}

pub open spec fn snapshots_of(
    ps: Seq<PhysicsPlayerInfo>,
    bs: Seq<BulletEntity>,
    sessions: Map<u64, SessionView>,
) -> Seq<SnapshotModel> {
    ps.map_values(|p: PhysicsPlayerInfo| snapshot_of(p, ps, bs, sessions))
}

/// Whether the action fires a shot: only once the cooldown has run out.
pub open spec fn fires(p: PhysicsPlayerInfo, action: GameAction) -> bool {
    action.click && p.bullet_cooldown == 0
}

/// A player after one of its actions: aimed anew, and with the cooldown
/// restarted if it fired.
pub open spec fn after_action(p: PhysicsPlayerInfo, action: GameAction) -> PhysicsPlayerInfo {
    PhysicsPlayerInfo {
        dir: action.dir,
        bullet_cooldown: if fires(p, action) { FIRE_COOLDOWN } else { p.bullet_cooldown },
        ..p
    }
}

/// Removing one entry of a sequence without duplicates leaves one without
/// duplicates, whose items are the others.
pub proof fn lemma_remove_unique<A>(s: Seq<A>, i: int)
    requires
        s.no_duplicates(),
        0 <= i < s.len(),
    ensures
        s.remove(i).no_duplicates(),
        s.remove(i).to_set() == s.to_set().remove(s[i]),
{
    let r = s.remove(i);
    assert forall|a: int, b: int| 0 <= a < r.len() && 0 <= b < r.len() && a != b implies r[a]
        != r[b] by {
        let a2 = if a < i { a } else { a + 1 };
        let b2 = if b < i { b } else { b + 1 };
        assert(r[a] == s[a2] && r[b] == s[b2]);
    }
    assert forall|x: A| #[trigger] r.to_set().contains(x) <==> s.to_set().remove(s[i]).contains(x) by {
        if r.contains(x) {
            let k = choose|k: int| 0 <= k < r.len() && r[k] == x;
            let k2 = if k < i { k } else { k + 1 };
            assert(s[k2] == x);
            assert(k2 != i);
        }
        if s.contains(x) && x != s[i] {
            let k = choose|k: int| 0 <= k < s.len() && s[k] == x;
            assert(k != i);
            let k2 = if k < i { k } else { k - 1 };
            assert(r[k2] == x);
        }
    }
    assert(r.to_set() =~= s.to_set().remove(s[i]));
}

/// The game state: players, bullets, the collisions not yet applied, and the
/// session directory. All changes go through one `&mut` borrow at a time,
/// which is what keeps ticks and instructions from interleaving.
pub struct PhysicsEngine {
    players: Vec<PhysicsPlayerInfo>,
    bullets: Vec<BulletEntity>,
    pending_hits: Vec<BodyKey>,
    directory: SessionDirectory,
    rules: GameRules,
}

impl PhysicsEngine {
    pub closed spec fn players(&self) -> Seq<PhysicsPlayerInfo> {
        self.players@
    }

    pub closed spec fn bullets(&self) -> Seq<BulletEntity> {
        self.bullets@
    }

    /// Bodies whose collisions were recorded since the last tick.
    pub closed spec fn pending_hits(&self) -> Seq<BodyKey> {
        self.pending_hits@
    }

    pub closed spec fn sessions(&self) -> Map<u64, SessionView> {
        self.directory@
    }

    pub closed spec fn rules(&self) -> GameRules {
        self.rules
    }

    /// At most one player per connection; health never under the floor;
    /// cooldowns and bullet ages within their bounds.
    pub open spec fn wf(&self) -> bool {
        &&& self.rules().wf()
        &&& conns(self.players()).no_duplicates()
        &&& forall|i: int|
            0 <= i < self.players().len() ==> #[trigger] self.players()[i].health >= HEALTH_FLOOR
        &&& forall|i: int|
            0 <= i < self.players().len() ==> #[trigger] self.players()[i].bullet_cooldown
                <= FIRE_COOLDOWN
        &&& forall|i: int|
            0 <= i < self.bullets().len() ==> #[trigger] self.bullets()[i].age <= MAX_BULLET_AGE
    }

    pub fn new(rules: GameRules) -> (r: PhysicsEngine)
        requires
            rules.wf(),
        ensures
            r.wf(),
            r.players() == Seq::<PhysicsPlayerInfo>::empty(),
            r.bullets() == Seq::<BulletEntity>::empty(),
            r.pending_hits() == Seq::<BodyKey>::empty(),
            r.sessions() == Map::<u64, SessionView>::empty(),
            r.rules() == rules,
    {
        let r = PhysicsEngine {
            players: Vec::new(),
            bullets: Vec::new(),
            pending_hits: Vec::new(),
            directory: SessionDirectory::new(),
            rules,
        };
        assert(conns(r.players@) =~= Seq::<u64>::empty());
        r
    }

    /// The invariant holds of `self` when its players satisfy it and its
    /// bullets and rules are those of a well-formed `prev`.
    proof fn lemma_wf_from_parts(&self, prev: PhysicsEngine)
        requires
            prev.wf(),
            self.bullets@ == prev.bullets@,
            self.rules == prev.rules,
            conns(self.players@).no_duplicates(),
            forall|i: int|
                0 <= i < self.players@.len() ==> (#[trigger] self.players@[i]).health >= HEALTH_FLOOR
                    && self.players@[i].bullet_cooldown <= FIRE_COOLDOWN,
        ensures
            self.wf(),
    {
        assert forall|i: int| 0 <= i < self.bullets().len() implies #[trigger] self.bullets()[i].age
            <= MAX_BULLET_AGE by {
            assert(prev.bullets()[i].age <= MAX_BULLET_AGE);
        }
    }

    /// The invariant depends on the players, bullets and rules alone.
    proof fn lemma_wf_same_entities(&self, prev: PhysicsEngine)
        requires
            prev.wf(),
            self.players@ == prev.players@,
            self.bullets@ == prev.bullets@,
            self.rules == prev.rules,
        ensures
            self.wf(),
    {
        assert forall|i: int| 0 <= i < self.players@.len() implies (#[trigger] self.players@[i]).health
            >= HEALTH_FLOOR && self.players@[i].bullet_cooldown <= FIRE_COOLDOWN by {
            assert(prev.players()[i] == self.players@[i]);
        }
        self.lemma_wf_from_parts(prev);
    }

    /// Index of the player of `conn`, if it has one.
    fn find_player(&self, conn: u64) -> (r: Option<usize>)
        ensures
            r.is_some() ==> r.unwrap() < self.players().len() && self.players()[r.unwrap() as int].conn
                == conn,
            r.is_none() ==> !has_player(self.players(), conn),
    {
        let mut i: usize = 0;
        while i < self.players.len()
            invariant
                i <= self.players@.len(),
                forall|j: int| 0 <= j < i ==> self.players@[j].conn != conn,
            decreases self.players@.len() - i,
        {
            if self.players[i].conn == conn {
                return Some(i);
            }
            i = i + 1;
        }
        None
    }

    /// The player of `conn`, if it has joined.
    pub fn player(&self, conn: u64) -> (r: Option<PhysicsPlayerInfo>)
        ensures
            r.is_some() == has_player(self.players(), conn),
            r.is_some() ==> self.players().contains(r.unwrap()) && r.unwrap().conn == conn,
    {
        match self.find_player(conn) {
            Some(i) => Some(self.players[i]),
            None => None,
        }
    }

    /// Number of players in the game.
    pub fn player_count(&self) -> (r: usize)
        ensures
            r == self.players().len(),
    {
        self.players.len()
    }

    /// Number of live bullets.
    pub fn bullet_count(&self) -> (r: usize)
        ensures
            r == self.bullets().len(),
    {
        self.bullets.len()
    }

    /// The rules the game runs under.
    pub fn game_rules(&self) -> (r: GameRules)
        ensures
            r == self.rules(),
    {
        self.rules
    }

    /// Registers a new connection in the session directory.
    pub fn connect(&mut self, conn: u64)
        requires
            old(self).wf(),
        ensures
            final(self).wf(),
            final(self).sessions() == old(self).sessions().insert(conn, empty_session()),
            final(self).players() == old(self).players(),
            final(self).bullets() == old(self).bullets(),
            final(self).pending_hits() == old(self).pending_hits(),
            final(self).rules() == old(self).rules(),
    {
        self.directory.register(conn);
        proof {
            self.lemma_wf_from_parts(*old(self));
        }
    }

    /// Session attributes of `conn`, or the sentinel entry.
    pub fn session(&self, conn: u64) -> (r: PlayerInfo)
        ensures
            r@ == session_of(self.sessions(), conn),
    {
        self.directory.get(conn)
    }

    /// Puts the player of `conn` into the game with the freshly created body
    /// `body` and records its display name. A connection that already plays
    /// is respawned: its old body is handed back for release.
    pub fn join(&mut self, conn: u64, username: String, body: BodyKey) -> (r: Option<BodyKey>)
        requires
            old(self).wf(),
        ensures
            final(self).wf(),
            match r {
                Some(old_body) => exists|i: int|
                    0 <= i < old(self).players().len() && old(self).players()[i].conn == conn
                        && old_body == old(self).players()[i].body && final(self).players()
                        == old(self).players().update(
                        i,
                        fresh_player(conn, body, old(self).rules()),
                    ),
                None => !has_player(old(self).players(), conn) && final(self).players()
                    == old(self).players().push(fresh_player(conn, body, old(self).rules())),
            },
            player_ids(final(self).players()) == player_ids(old(self).players()).insert(conn),
            old(self).sessions().contains_key(conn) ==> final(self).sessions()
                == old(self).sessions().insert(
                conn,
                SessionView {
                    username: shown_name(username@),
                    dir: old(self).sessions()[conn].dir,
                },
            ),
            !old(self).sessions().contains_key(conn) ==> final(self).sessions()
                == old(self).sessions(),
            final(self).bullets() == old(self).bullets(),
            final(self).pending_hits() == old(self).pending_hits(),
            final(self).rules() == old(self).rules(),
    {
        let name = display_name(username);
        self.directory.set_username(conn, name);
        let fresh = PhysicsPlayerInfo {
            conn,
            body,
            dir: 0,
            bullet_cooldown: 0,
            health: self.rules.starting_health,
        };
        let ghost before = self.players@;
        match self.find_player(conn) {
            Some(i) => {
                let old_body = self.players[i].body;
                self.players.set(i, fresh);
                proof {
                    assert(conns(self.players@) =~= conns(before));
                    assert(conns(before)[i as int] == conn);
                    assert(player_ids(before).contains(conn));
                    assert(player_ids(before).insert(conn) =~= player_ids(before));
                    self.lemma_wf_from_parts(*old(self));
                    assert(old(self).players()[i as int].conn == conn);
                    assert(fresh == fresh_player(conn, body, old(self).rules()));
                    assert(self.players() == old(self).players().update(
                        i as int,
                        fresh_player(conn, body, old(self).rules()),
                    ));
                    assert(old_body == old(self).players()[i as int].body);
                }
                Some(old_body)
            },
            None => {
                self.players.push(fresh);
                proof {
                    assert(conns(self.players@) =~= conns(before).push(conn));
                    assert(!conns(before).contains(conn)) by {
                        if conns(before).contains(conn) {
                            let j = choose|j: int| 0 <= j < conns(before).len() && conns(before)[j] == conn;
                            assert(before[j].conn == conn);
                        }
                    }
                    self.lemma_wf_from_parts(*old(self));
                }
                None
            },
        }
    }

    /// Takes the player of `conn` out of the game and deletes its session
    /// entry. Hands back the body to release; `None` if `conn` had no player.
    pub fn exit(&mut self, conn: u64) -> (r: Option<BodyKey>)
        requires
            old(self).wf(),
        ensures
            final(self).wf(),
            match r {
                Some(old_body) => exists|i: int|
                    0 <= i < old(self).players().len() && old(self).players()[i].conn == conn
                        && old_body == old(self).players()[i].body && final(self).players()
                        == old(self).players().remove(i),
                None => !has_player(old(self).players(), conn) && final(self).players()
                    == old(self).players(),
            },
            player_ids(final(self).players()) == player_ids(old(self).players()).remove(conn),
            final(self).sessions() == old(self).sessions().remove(conn),
            final(self).bullets() == old(self).bullets(),
            final(self).pending_hits() == old(self).pending_hits(),
            final(self).rules() == old(self).rules(),
    {
        self.directory.remove(conn);
        let ghost before = self.players@;
        match self.find_player(conn) {
            Some(i) => {
                let old_body = self.players[i].body;
                self.players.remove(i);
                proof {
                    assert(conns(self.players@) =~= conns(before).remove(i as int));
                    lemma_remove_unique(conns(before), i as int);
                    assert(conns(before)[i as int] == conn);
                    assert forall|k: int| 0 <= k < self.players@.len() implies (
                    #[trigger] self.players@[k]).health >= HEALTH_FLOOR
                        && self.players@[k].bullet_cooldown <= FIRE_COOLDOWN by {
                        if k < i {
                            assert(self.players@[k] == before[k]);
                        } else {
                            assert(self.players@[k] == before[k + 1]);
                        }
                    }
                    self.lemma_wf_from_parts(*old(self));
                    assert(old_body == old(self).players()[i as int].body);
                }
                Some(old_body)
            },
            None => {
                proof {
                    assert(!conns(before).contains(conn)) by {
                        if conns(before).contains(conn) {
                            let j = choose|j: int| 0 <= j < conns(before).len() && conns(before)[j] == conn;
                            assert(before[j].conn == conn);
                        }
                    }
                    assert(player_ids(before).remove(conn) =~= player_ids(before));
                    self.lemma_wf_from_parts(*old(self));
                }
                None
            },
        }
    }

    /// Carries out one game action of `conn`: records the aim, lists the
    /// movement impulses, and fires when the cooldown has run out, which
    /// restarts it. `None`, and nothing changes, if `conn` has no player.
    pub fn game_action(&mut self, conn: u64, action: GameAction) -> (r: Option<ActionPlan>)
        requires
            old(self).wf(),
        ensures
            final(self).wf(),
            r.is_some() == has_player(old(self).players(), conn),
            r.is_none() ==> final(self).players() == old(self).players() && final(self).sessions()
                == old(self).sessions(),
            r.is_some() ==> exists|i: int|
                0 <= i < old(self).players().len() && old(self).players()[i].conn == conn
                    && r.unwrap().body == old(self).players()[i].body && r.unwrap().fire
                    == fires(old(self).players()[i], action) && final(self).players()
                    == old(self).players().update(i, after_action(old(self).players()[i], action)),
            r.is_some() ==> r.unwrap().impulses@ == moves_of(
                action.w,
                action.a,
                action.s,
                action.d,
            ),
            r.is_some() && old(self).sessions().contains_key(conn) ==> final(self).sessions()
                == old(self).sessions().insert(
                conn,
                SessionView { username: old(self).sessions()[conn].username, dir: action.dir },
            ),
            r.is_some() && !old(self).sessions().contains_key(conn) ==> final(self).sessions()
                == old(self).sessions(),
            final(self).bullets() == old(self).bullets(),
            final(self).pending_hits() == old(self).pending_hits(),
            final(self).rules() == old(self).rules(),
    {
        match self.find_player(conn) {
            None => None,
            Some(i) => {
                let ghost before = self.players@;
                let p = self.players[i];
                let fire = action.click && p.bullet_cooldown == 0;
                let cooldown = if fire {
                    FIRE_COOLDOWN
                } else {
                    p.bullet_cooldown
                };
                let acted = PhysicsPlayerInfo { dir: action.dir, bullet_cooldown: cooldown, ..p };
                self.players.set(i, acted);
                self.directory.set_facing(conn, action.dir);
                let impulses = movement_impulses(action.w, action.a, action.s, action.d);
                proof {
                    assert(conns(self.players@) =~= conns(before));
                    assert(acted == after_action(before[i as int], action));
                    self.lemma_wf_from_parts(*old(self));
                }
                Some(ActionPlan { body: p.body, impulses, fire })
            },
        }
    }

    /// Starts tracking the bullet body the host spawned for a shot.
    pub fn register_bullet(&mut self, body: BodyKey)
        requires
            old(self).wf(),
        ensures
            final(self).wf(),
            final(self).bullets() == old(self).bullets().push(BulletEntity { body, age: 0 }),
            final(self).players() == old(self).players(),
            final(self).sessions() == old(self).sessions(),
            final(self).pending_hits() == old(self).pending_hits(),
            final(self).rules() == old(self).rules(),
    {
        self.bullets.push(BulletEntity { body, age: 0 });
        proof {
            assert forall|i: int| 0 <= i < self.bullets().len() implies #[trigger] self.bullets()[i].age
                <= MAX_BULLET_AGE by {
                if i < old(self).bullets().len() {
                    assert(old(self).bullets()[i] == self.bullets()[i]);
                }
            }
            assert forall|i: int| 0 <= i < self.players().len() implies (
            #[trigger] self.players()[i]).health >= HEALTH_FLOOR && self.players()[i].bullet_cooldown
                <= FIRE_COOLDOWN by {
                assert(old(self).players()[i] == self.players()[i]);
            }
        }
    }

    /// Records that the body `body` started a collision; the hit is applied
    /// at the start of the next tick.
    pub fn record_collision(&mut self, body: BodyKey)
        requires
            old(self).wf(),
        ensures
            final(self).wf(),
            final(self).pending_hits() == old(self).pending_hits().push(body),
            final(self).players() == old(self).players(),
            final(self).bullets() == old(self).bullets(),
            final(self).sessions() == old(self).sessions(),
            final(self).rules() == old(self).rules(),
    {
        self.pending_hits.push(body);
        proof {
            self.lemma_wf_from_parts(*old(self));
        }
    }

    /// Ages every bullet by one tick and drops those past the maximum age;
    /// returns the bodies dropped.
    fn age_bullets(&mut self) -> (r: Vec<BodyKey>)
        requires
            old(self).wf(),
        ensures
            final(self).wf(),
            final(self).bullets() == next_bullets(old(self).bullets()),
            r@ == expired_bodies(old(self).bullets()),
            final(self).players() == old(self).players(),
            final(self).sessions() == old(self).sessions(),
            final(self).pending_hits() == old(self).pending_hits(),
            final(self).rules() == old(self).rules(),
    {
        let ghost bs = self.bullets@;
        assert forall|j: int| 0 <= j < bs.len() implies #[trigger] bs[j].age <= MAX_BULLET_AGE by {
            assert(old(self).bullets()[j].age <= MAX_BULLET_AGE);
        }
        let mut kept: Vec<BulletEntity> = Vec::new();
        let mut expired: Vec<BodyKey> = Vec::new();
        let mut i: usize = 0;
        while i < self.bullets.len()
            invariant
                i <= bs.len(),
                self.bullets@ == bs,
                forall|j: int| 0 <= j < bs.len() ==> #[trigger] bs[j].age <= MAX_BULLET_AGE,
                kept@ == next_bullets(bs.take(i as int)),
                expired@ == expired_bodies(bs.take(i as int)),
            decreases bs.len() - i,
        {
            let b = self.bullets[i];
            let nb = BulletEntity { body: b.body, age: b.age + 1 };
            proof {
                assert(bs.take(i + 1) =~= bs.take(i as int).push(b));
                assert(aged(bs.take(i + 1)) =~= aged(bs.take(i as int)).push(nb));
            }
            if nb.age > MAX_BULLET_AGE {
                expired.push(nb.body);
            } else {
                kept.push(nb);
            }
            i = i + 1;
        }
        proof {
            assert(bs.take(bs.len() as int) =~= bs);
        }
        self.bullets = kept;
        proof {
            assert forall|j: int| 0 <= j < self.bullets().len() implies #[trigger] self.bullets()[j].age
                <= MAX_BULLET_AGE by {
                let pred = |b: BulletEntity| b.age <= MAX_BULLET_AGE;
                assert(aged(bs).filter(pred)[j].age <= MAX_BULLET_AGE);
            }
            assert forall|j: int| 0 <= j < self.players().len() implies (
            #[trigger] self.players()[j]).health >= HEALTH_FLOOR && self.players()[j].bullet_cooldown
                <= FIRE_COOLDOWN by {
                assert(old(self).players()[j] == self.players()[j]);
            }
        }
        expired
    }

    /// Counts every cooldown down by one tick, not below zero.
    fn cool_down(&mut self)
        requires
            old(self).wf(),
        ensures
            final(self).wf(),
            final(self).players() == cool_all(old(self).players()),
            final(self).bullets() == old(self).bullets(),
            final(self).sessions() == old(self).sessions(),
            final(self).pending_hits() == old(self).pending_hits(),
            final(self).rules() == old(self).rules(),
    {
        let ghost ps = self.players@;
        let mut next: Vec<PhysicsPlayerInfo> = Vec::new();
        let mut i: usize = 0;
        while i < self.players.len()
            invariant
                i <= ps.len(),
                self.players@ == ps,
                next@.len() == i,
                forall|j: int| 0 <= j < i ==> #[trigger] next@[j] == cooled_down(ps[j]),
            decreases ps.len() - i,
        {
            let p = self.players[i];
            let cooldown = if p.bullet_cooldown > 0 {
                p.bullet_cooldown - 1
            } else {
                0
            };
            next.push(PhysicsPlayerInfo { bullet_cooldown: cooldown, ..p });
            i = i + 1;
        }
        self.players = next;
        proof {
            assert(self.players@ =~= cool_all(ps));
            assert(conns(self.players@) =~= conns(ps));
            assert forall|j: int| 0 <= j < self.players@.len() implies (
            #[trigger] self.players@[j]).health >= HEALTH_FLOOR && self.players@[j].bullet_cooldown
                <= FIRE_COOLDOWN by {
                assert(self.players@[j] == cooled_down(ps[j]));
                assert(old(self).players()[j] == ps[j]);
            }
            self.lemma_wf_from_parts(*old(self));
        }
    }

    /// Applies one recorded collision of `key` to every player.
    fn apply_hit(&mut self, key: BodyKey)
        requires
            old(self).wf(),
        ensures
            final(self).wf(),
            final(self).players() == hit_all(old(self).players(), key, old(self).rules().bullet_damage),
            final(self).bullets() == old(self).bullets(),
            final(self).sessions() == old(self).sessions(),
            final(self).pending_hits() == old(self).pending_hits(),
            final(self).rules() == old(self).rules(),
    {
        let ghost ps = self.players@;
        let damage = self.rules.bullet_damage;
        let mut next: Vec<PhysicsPlayerInfo> = Vec::new();
        let mut i: usize = 0;
        while i < self.players.len()
            invariant
                i <= ps.len(),
                self.players@ == ps,
                damage == self.rules.bullet_damage,
                next@.len() == i,
                forall|j: int| 0 <= j < i ==> #[trigger] next@[j] == hit_player(ps[j], key, damage),
            decreases ps.len() - i,
        {
            let p = self.players[i];
            if p.body == key {
                next.push(PhysicsPlayerInfo { health: apply_damage(p.health, damage), ..p });
            } else {
                next.push(p);
            }
            i = i + 1;
        }
        self.players = next;
        proof {
            assert(self.players@ =~= hit_all(ps, key, damage));
            assert(conns(self.players@) =~= conns(ps));
            assert forall|j: int| 0 <= j < self.players@.len() implies (
            #[trigger] self.players@[j]).health >= HEALTH_FLOOR && self.players@[j].bullet_cooldown
                <= FIRE_COOLDOWN by {
                assert(self.players@[j] == hit_player(ps[j], key, damage));
                assert(old(self).players()[j] == ps[j]);
            }
            self.lemma_wf_from_parts(*old(self));
        }
    }

    /// Applies every collision recorded since the last tick, in order, and
    /// empties the backlog.
    fn drain_hits(&mut self)
        requires
            old(self).wf(),
        ensures
            final(self).wf(),
            final(self).players() == apply_hits(
                old(self).players(),
                old(self).pending_hits(),
                old(self).rules().bullet_damage,
            ),
            final(self).pending_hits() == Seq::<BodyKey>::empty(),
            final(self).bullets() == old(self).bullets(),
            final(self).sessions() == old(self).sessions(),
            final(self).rules() == old(self).rules(),
    {
        let ghost ps = self.players@;
        let mut hits: Vec<BodyKey> = Vec::new();
        std::mem::swap(&mut hits, &mut self.pending_hits);
        proof {
            self.lemma_wf_same_entities(*old(self));
        }
        let mut k: usize = 0;
        while k < hits.len()
            invariant
                self.wf(),
                k <= hits@.len(),
                hits@ == old(self).pending_hits(),
                self.players() == apply_hits(ps, hits@.take(k as int), self.rules.bullet_damage),
                self.pending_hits() == Seq::<BodyKey>::empty(),
                self.bullets() == old(self).bullets(),
                self.sessions() == old(self).sessions(),
                self.rules() == old(self).rules(),
            decreases hits@.len() - k,
        {
            proof {
                assert(hits@.take(k + 1).drop_last() =~= hits@.take(k as int));
                assert(hits@.take(k + 1).last() == hits@[k as int]);
            }
            self.apply_hit(hits[k]);
            k = k + 1;
        }
        proof {
            assert(hits@.take(hits@.len() as int) =~= hits@);
        }
    }

    /// Takes every player at or below the health floor out of the game and
    /// returns them.
    fn remove_eliminated(&mut self) -> (r: Vec<PhysicsPlayerInfo>)
        requires
            old(self).wf(),
        ensures
            final(self).wf(),
            final(self).players() == survivors(old(self).players()),
            r@ == eliminated(old(self).players()),
            forall|j: int|
                0 <= j < final(self).players().len() ==> #[trigger] final(self).players()[j].health
                    > HEALTH_FLOOR,
            final(self).bullets() == old(self).bullets(),
            final(self).sessions() == old(self).sessions(),
            final(self).pending_hits() == old(self).pending_hits(),
            final(self).rules() == old(self).rules(),
    {
        let ghost ps = self.players@;
        assert forall|j: int| 0 <= j < ps.len() implies (#[trigger] ps[j]).bullet_cooldown
            <= FIRE_COOLDOWN by {
            assert(old(self).players()[j] == ps[j]);
        }
        let mut keep: Vec<PhysicsPlayerInfo> = Vec::new();
        let mut out: Vec<PhysicsPlayerInfo> = Vec::new();
        let mut i: usize = 0;
        while i < self.players.len()
            invariant
                i <= ps.len(),
                self.players@ == ps,
                conns(ps).no_duplicates(),
                forall|j: int| 0 <= j < ps.len() ==> (#[trigger] ps[j]).bullet_cooldown
                    <= FIRE_COOLDOWN,
                keep@ == survivors(ps.take(i as int)),
                out@ == eliminated(ps.take(i as int)),
                conns(keep@).no_duplicates(),
                forall|a: int|
                    0 <= a < keep@.len() ==> exists|j: int|
                        0 <= j < i && #[trigger] keep@[a] == ps[j],
                forall|a: int|
                    0 <= a < keep@.len() ==> (#[trigger] keep@[a]).health > HEALTH_FLOOR
                        && keep@[a].bullet_cooldown <= FIRE_COOLDOWN,
            decreases ps.len() - i,
        {
            let p = self.players[i];
            proof {
                assert(ps.take(i + 1) =~= ps.take(i as int).push(p));
            }
            if p.health > HEALTH_FLOOR {
                let ghost before = keep@;
                keep.push(p);
                proof {
                    assert(conns(keep@) =~= conns(before).push(p.conn));
                    assert forall|a: int| 0 <= a < before.len() implies conns(before)[a] != p.conn by {
                        let j = choose|j: int| 0 <= j < i && before[a] == ps[j];
                        assert(conns(ps)[j] == ps[j].conn);
                        assert(conns(ps)[i as int] == p.conn);
                    }
                    assert forall|a: int| 0 <= a < keep@.len() implies exists|j: int|
                        0 <= j < i + 1 && #[trigger] keep@[a] == ps[j] by {
                        if a < before.len() {
                            let j = choose|j: int| 0 <= j < i && before[a] == ps[j];
                            assert(keep@[a] == ps[j]);
                        } else {
                            assert(keep@[a] == ps[i as int]);
                        }
                    }
                }
            } else {
                out.push(p);
            }
            i = i + 1;
        }
        proof {
            assert(ps.take(ps.len() as int) =~= ps);
        }
        self.players = keep;
        proof {
            self.lemma_wf_from_parts(*old(self));
        }
        out
    }

    /// The snapshot of `p`: the other players, with their session names, and
    /// every bullet.
    fn snapshot_for(&self, p: PhysicsPlayerInfo) -> (r: PhysicsStateResponse)
        ensures
            r@ == snapshot_of(p, self.players(), self.bullets(), self.sessions()),
    {
        let ghost ps = self.players@;
        let ghost sessions = self.directory@;
        let mut enemies: Vec<EnemyInfo> = Vec::new();
        let mut j: usize = 0;
        while j < self.players.len()
            invariant
                j <= ps.len(),
                self.players@ == ps,
                self.directory@ == sessions,
                enemy_models(enemies@) == enemies_of(ps.take(j as int), p.conn, sessions),
            decreases ps.len() - j,
        {
            let q = self.players[j];
            proof {
                assert(ps.take(j + 1) =~= ps.take(j as int).push(q));
            }
            if q.conn != p.conn {
                let info = self.directory.get(q.conn);
                let e = EnemyInfo {
                    conn: q.conn,
                    body: q.body,
                    health: q.health,
                    dir: q.dir,
                    username: info.username,
                };
                let ghost before = enemies@;
                enemies.push(e);
                proof {
                    assert(e@ == enemy_model(q, sessions));
                    assert(enemy_models(enemies@) =~= enemy_models(before).push(e@));
                    assert(others(ps.take(j + 1), p.conn) == others(ps.take(j as int), p.conn).push(
                        q,
                    ));
                    assert(enemies_of(ps.take(j + 1), p.conn, sessions) =~= enemies_of(
                        ps.take(j as int),
                        p.conn,
                        sessions,
                    ).push(enemy_model(q, sessions)));
                }
            } else {
                proof {
                    assert(others(ps.take(j + 1), p.conn) == others(ps.take(j as int), p.conn));
                }
            }
            j = j + 1;
        }
        proof {
            assert(ps.take(ps.len() as int) =~= ps);
        }
        let ghost bs = self.bullets@;
        let mut bullets: Vec<BodyKey> = Vec::new();
        let mut k: usize = 0;
        while k < self.bullets.len()
            invariant
                k <= bs.len(),
                self.bullets@ == bs,
                bullets@.len() == k,
                forall|m: int| 0 <= m < k ==> #[trigger] bullets@[m] == bs[m].body,
            decreases bs.len() - k,
        {
            bullets.push(self.bullets[k].body);
            k = k + 1;
        }
        proof {
            assert(bullets@ =~= bullet_bodies(bs));
        }
        PhysicsStateResponse { recipient: p.conn, body: p.body, health: p.health, enemies, bullets }
    }

    /// Advances the game state by one tick: ages the bullets, counts the
    /// cooldowns down, applies the collisions recorded since the last tick,
    /// takes out the players at the health floor, and plans one snapshot for
    /// every remaining player.
    pub fn tick(&mut self) -> (r: TickReport)
        requires
            old(self).wf(),
        ensures
            final(self).wf(),
            final(self).bullets() == next_bullets(old(self).bullets()),
            r.expired_bullets@ == expired_bodies(old(self).bullets()),
            final(self).players() == survivors(
                after_hits(old(self).players(), old(self).pending_hits(), old(self).rules().bullet_damage),
            ),
            r.game_over@ == eliminated(
                after_hits(old(self).players(), old(self).pending_hits(), old(self).rules().bullet_damage),
            ),
            final(self).pending_hits() == Seq::<BodyKey>::empty(),
            final(self).sessions() == old(self).sessions(),
            final(self).rules() == old(self).rules(),
            forall|j: int|
                0 <= j < final(self).players().len() ==> #[trigger] final(self).players()[j].health
                    > HEALTH_FLOOR,
            r.snapshots@.len() == final(self).players().len(),
            forall|j: int|
                0 <= j < r.snapshots@.len() ==> #[trigger] r.snapshots@[j]@ == snapshot_of(
                    final(self).players()[j],
                    final(self).players(),
                    final(self).bullets(),
                    final(self).sessions(),
                ),
            forall|j: int, k: int|
                0 <= j < r.snapshots@.len() && 0 <= k < r.snapshots@[j]@.enemies.len()
                    ==> #[trigger] r.snapshots@[j]@.enemies[k].conn != r.snapshots@[j].recipient,
    {
        let expired_bullets = self.age_bullets();
        self.cool_down();
        self.drain_hits();
        let game_over = self.remove_eliminated();
        let mut snapshots: Vec<PhysicsStateResponse> = Vec::new();
        let ghost ps = self.players@;
        let mut i: usize = 0;
        while i < self.players.len()
            invariant
                self.wf(),
                i <= ps.len(),
                self.players@ == ps,
                snapshots@.len() == i,
                forall|j: int|
                    0 <= j < i ==> #[trigger] snapshots@[j]@ == snapshot_of(
                        ps[j],
                        self.players(),
                        self.bullets(),
                        self.sessions(),
                    ),
            decreases ps.len() - i,
        {
            let s = self.snapshot_for(self.players[i]);
            snapshots.push(s);
            i = i + 1;
        }
        proof {
            assert forall|j: int, k: int|
                0 <= j < snapshots@.len() && 0 <= k < snapshots@[j]@.enemies.len()
                    implies #[trigger] snapshots@[j]@.enemies[k].conn != snapshots@[j].recipient by {
                let c = ps[j].conn;
                assert(snapshots@[j]@.enemies == enemies_of(ps, c, self.sessions()));
                assert(others(ps, c)[k].conn != c);
            }
        }
        TickReport { expired_bullets, game_over, snapshots }
    }
}

} // verus!
