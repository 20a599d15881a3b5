//! The state of a quest: the setup, the bounties chosen in the tavern, the
//! march towards the castle, and the time that is left.
use vstd::prelude::*;
use std::collections::HashSet;
use crate::dotdo::Task;
use crate::map::WorldMap;
use crate::text::{decimal, push_char, push_two_digits, two_digits};
use crate::ui::{Animation, SLASH_LAST_FRAME};

verus! {

/// The screen the player is on.
#[derive(Clone, Copy, Debug, PartialEq, Eq, Structural)]
pub enum Scene {
    Setup,
    Tavern,
    Naming,
    March,
    Selection,
    /// Fighting the monster at this index of the quest's monster list.
    Battle(usize),
    Summary,
}

/// A foe of the quest: a dotdo task taken as a bounty, or a wild monster the
/// player named.
pub struct Monster {
    pub name: String,
    pub is_slain: bool,
    pub monster_type: String,
    pub dotdo_id: Option<u32>,
    pub art_idx: usize,
}

/// The width and height of the world map.
pub const MAP_WIDTH: u16 = 60;
pub const MAP_HEIGHT: u16 = 100;
/// How often the march advances, in milliseconds.
pub const TICK_RATE_MS: u64 = 250;
/// How many pictures of monsters there are.
pub const MONSTER_ART_COUNT: usize = 5;

pub struct App {
    pub state: Scene,
    pub monsters: Vec<Monster>,
    pub slain_count: usize,
    pub map: WorldMap,
    pub hours: u32,
    pub mins: u32,
    pub monsters_goal: u32,
    pub ticks: u64,
    pub cursor_pos: usize,
    pub setup_cursor: usize,
    pub tick_rate_ms: u64,
    pub available_tasks: Vec<Task>,
    pub selected_indices: HashSet<usize>,
    pub custom_monsters: Vec<String>,
    pub naming_input: String,
    pub animation: Option<Animation>,
    pub is_paused: bool,
}

/// How many of these monsters are slain.
pub open spec fn count_slain(monsters: Seq<Monster>) -> nat
    decreases monsters.len(),
{
    if monsters.len() == 0 {
        0
    } else {
        count_slain(monsters.drop_last()) + if monsters.last().is_slain {
            1nat
        } else {
            0nat
        }
    }
}

/// The number of ticks a goal of `hours` and `mins` lasts at `rate_ms` per
/// tick, rounded down; with a zero rate a positive goal never ends.
pub open spec fn total_ticks_for(hours: u32, mins: u32, rate_ms: u64) -> int {
    let goal_ms = (hours * 3600 + mins * 60) * 1000;
    if rate_ms == 0 {
        if goal_ms == 0 {
            0
        } else {
            u64::MAX as int
        }
    } else {
        goal_ms / (rate_ms as int)
    }
}

/// The step of the trail the knight stands on after `ticks` of a march of
/// `total` ticks along a trail of `steps` steps: the same fraction of the way,
/// and the last step once the march is over (at once, for a march of no ticks).
pub open spec fn knight_index_for(ticks: int, total: int, steps: int) -> int {
    if total == 0 {
        if steps > 0 {
            steps - 1
        } else {
            0
        }
    } else {
        let walked = if ticks < total {
            ticks
        } else {
            total
        };
        walked * (steps - 1) / total
    }
}

/// One tick of the clock. A running slash animation advances a frame, and
/// after its last frame ends and returns the knight to the march; otherwise,
/// on the march, unpaused and short of the castle, the knight walks a tick.
pub open spec fn tick_step(app: App) -> App {
    match app.animation {
        Some(Animation::Slash { frame }) => if frame + 1 > SLASH_LAST_FRAME {
            App { animation: None, state: Scene::March, ..app }
        } else {
            App { animation: Some(Animation::Slash { frame: (frame + 1) as usize }), ..app }
        },
        None => if app.state == Scene::March && !app.is_paused && !app.goal_reached() {
            App { ticks: (app.ticks + 1) as u64, ..app }
        } else {
            app
        },
    }
}

/// The quest after `n` ticks of the clock with no key pressed.
pub open spec fn after_ticks(app: App, n: nat) -> App
    decreases n,
{
    if n == 0 {
        app
    } else {
        after_ticks(tick_step(app), (n - 1) as nat)
    }
}

/// `hh:mm:ss` for a number of seconds, each part at least two digits.
pub open spec fn clock_text(seconds: nat) -> Seq<char> {
    two_digits(seconds / 3600) + seq![':'] + two_digits((seconds % 3600) / 60) + seq![':']
        + two_digits(seconds % 60)
}

impl App {
    pub open spec fn total_ticks(&self) -> int {
        total_ticks_for(self.hours, self.mins, self.tick_rate_ms)
    }

    pub open spec fn goal_reached(&self) -> bool {
        self.ticks >= self.total_ticks()
    }

    pub open spec fn all_slain(&self) -> bool {
        self.monsters@.len() > 0 && forall|i: int|
            0 <= i < self.monsters@.len() ==> #[trigger] self.monsters@[i].is_slain
    }

    pub open spec fn quest_finished(&self) -> bool {
        self.goal_reached() || self.all_slain()
    }

    /// Whole seconds of the march still to go: none once the castle is reached.
    pub open spec fn seconds_left(&self) -> nat {
        if self.goal_reached() {
            0
        } else {
            ((self.total_ticks() - self.ticks) * self.tick_rate_ms / 1000) as nat
        }
    }

    /// The countdown shown to the player: the seconds left as `hh:mm:ss`.
    pub open spec fn time_left_text(&self) -> Seq<char> {
        clock_text(self.seconds_left())
    }

    /// The invariant that every operation keeps.
    pub open spec fn wf(&self) -> bool {
        &&& self.map.wf()
        &&& self.selected_indices@.finite()
        &&& forall|i: usize| #[trigger]
            self.selected_indices@.contains(i) ==> i < self.available_tasks@.len()
        &&& self.available_tasks@.len() + self.custom_monsters@.len() + 2 <= usize::MAX
        &&& (self.state is Battle ==> self.state->Battle_0 < self.monsters@.len())
        &&& (self.state == Scene::Selection ==> self.cursor_pos < self.monsters@.len())
        &&& (self.state == Scene::Setup || self.state == Scene::Tavern || self.state
            == Scene::Naming ==> self.monsters@.len() == 0)
        &&& self.slain_count == count_slain(self.monsters@)
        &&& (self.animation matches Some(Animation::Slash { frame }) ==> frame <= SLASH_LAST_FRAME)
    }

    /// A quest at the setup screen, one hour and three monsters by default,
    /// offering these tasks as bounties and marching over this map.
    pub fn new(available_tasks: Vec<Task>, map: WorldMap) -> (app: App)
        ensures
            app.state == Scene::Setup,
            app.monsters@.len() == 0,
            app.slain_count == 0,
            app.map == map,
            app.hours == 1,
            app.mins == 0,
            app.monsters_goal == 3,
            app.ticks == 0,
            app.cursor_pos == 0,
            app.setup_cursor == 0,
            app.tick_rate_ms == TICK_RATE_MS,
            app.available_tasks == available_tasks,
            app.selected_indices@ == Set::<usize>::empty(),
            app.custom_monsters@.len() == 0,
            app.naming_input@.len() == 0,
            app.animation is None,
            !app.is_paused,
            map.wf() && available_tasks@.len() + 2 <= usize::MAX ==> app.wf(),
    {
        App {
            state: Scene::Setup,
            monsters: Vec::new(),
            slain_count: 0,
            map,
            hours: 1,
            mins: 0,
            monsters_goal: 3,
            ticks: 0,
            cursor_pos: 0,
            setup_cursor: 0,
            tick_rate_ms: TICK_RATE_MS,
            available_tasks,
            selected_indices: HashSet::new(),
            custom_monsters: Vec::new(),
            naming_input: String::new(),
            animation: None,
            is_paused: false,
        }
    }

    /// One tick of the clock. A running slash animation advances a frame, and
    /// after its last frame ends and returns the knight to the march; otherwise,
    /// on the march, unpaused and short of the castle, the knight walks a tick.
    pub fn generate_row(&mut self)
        requires
            old(self).animation matches Some(Animation::Slash { frame }) ==> frame < usize::MAX,
        ensures
            *final(self) == tick_step(*old(self)),
            old(self).wf() ==> final(self).wf(),
    {
        if let Some(Animation::Slash { frame }) = self.animation {
            let next = frame + 1;
            if next > SLASH_LAST_FRAME {
                self.animation = None;
                self.state = Scene::March;
            } else {
                self.animation = Some(Animation::Slash { frame: next });
            }
            return;
        }
        if self.state == Scene::March && !self.is_paused {
            if !self.is_goal_reached() {
                self.ticks = self.ticks + 1;
            }
        }
    }

    /// The number of ticks the march lasts.
    pub fn get_total_ticks(&self) -> (t: u64)
        ensures
            t == self.total_ticks(),
    {
        assert(self.hours * 3600 <= 0xffff_ffff * 3600) by (nonlinear_arith);
        assert(self.mins * 60 <= 0xffff_ffff * 60) by (nonlinear_arith);
        let goal_ms: u64 = (self.hours as u64 * 3600 + self.mins as u64 * 60) * 1000;
        if self.tick_rate_ms == 0 {
            if goal_ms == 0 {
                0
            } else {
                u64::MAX
            }
        } else {
            proof {
                let g = goal_ms as int;
                let r = self.tick_rate_ms as int;
                assert(g / r <= g) by (nonlinear_arith)
                    requires
                        g >= 0,
                        r >= 1,
                ;
            }
            goal_ms / self.tick_rate_ms
        }
    }

    pub fn is_goal_reached(&self) -> (b: bool)
        ensures
            b == self.goal_reached(),
    {
        self.ticks >= self.get_total_ticks()
    }

    pub fn all_monsters_slain(&self) -> (b: bool)
        ensures
            b == self.all_slain(),
    {
        if self.monsters.len() == 0 {
            return false;
        }
        let mut i: usize = 0;
        while i < self.monsters.len()
            invariant
                i <= self.monsters@.len(),
                forall|j: int| 0 <= j < i ==> #[trigger] self.monsters@[j].is_slain,
            decreases self.monsters@.len() - i,
        {
            if !self.monsters[i].is_slain {
                return false;
            }
            i = i + 1;
        }
        true
    }

    pub fn is_quest_finished(&self) -> (b: bool)
        ensures
            b == self.quest_finished(),
    {
        self.is_goal_reached() || self.all_monsters_slain()
    }

    /// The step of the trail the knight has reached.
    pub fn get_knight_path_index(&self) -> (i: usize)
        requires
            self.total_ticks() > 0 ==> self.map.path_steps@.len() > 0,
        ensures
            i == knight_index_for(self.ticks as int, self.total_ticks(), self.map.path_steps@.len() as int),
            self.map.path_steps@.len() > 0 ==> i < self.map.path_steps@.len(),
    {
        let total = self.get_total_ticks();
        if total == 0 {
            let len = self.map.path_steps.len();
            return if len > 0 {
                len - 1
            } else {
                0
            };
        }
        let walked: u64 = if self.ticks < total {
            self.ticks
        } else {
            total
        };
        let last: u64 = (self.map.path_steps.len() - 1) as u64;
        proof {
            let w = walked as int;
            let n = last as int;
            let t = total as int;
            assert(w * n <= t * n) by (nonlinear_arith)
                requires
                    0 <= w <= t,
                    n >= 0,
            ;
            assert(w * n / t <= n) by (nonlinear_arith)
                requires
                    0 <= w * n <= t * n,
                    t >= 1,
                    n >= 0,
            ;
            assert(w * n <= 0xffff_ffff_ffff_ffff * 0xffff_ffff_ffff_ffff) by (nonlinear_arith)
                requires
                    0 <= w <= 0xffff_ffff_ffff_ffff,
                    0 <= n <= 0xffff_ffff_ffff_ffff,
            ;
        }
        let idx: u128 = (walked as u128) * (last as u128) / (total as u128);
        idx as usize
    }

    /// The time left to the castle as `hh:mm:ss`.
    pub fn get_time_left(&self) -> (s: String)
        ensures
            s@ == self.time_left_text(),
    {
        let total = self.get_total_ticks();
        let ticks_left: u64 = if self.ticks >= total {
            0
        } else {
            total - self.ticks
        };
        proof {
            let l = ticks_left as int;
            let r = self.tick_rate_ms as int;
            let g = (self.hours * 3600 + self.mins * 60) * 1000;
            assert(g <= 0xffff_ffff * 3_660_000) by (nonlinear_arith)
                requires
                    g == (self.hours * 3600 + self.mins * 60) * 1000,
                    0 <= self.hours <= 0xffff_ffff,
                    0 <= self.mins <= 0xffff_ffff,
            ;
            if r == 0 {
                assert(l * r == 0) by (nonlinear_arith)
                    requires
                        r == 0,
                ;
            } else {
                assert(l <= g / r);
                assert(l * r <= g) by (nonlinear_arith)
                    requires
                        0 <= l <= g / r,
                        r >= 1,
                        g >= 0,
                ;
            }
            assert(0 <= l * r) by (nonlinear_arith)
                requires
                    l >= 0,
                    r >= 0,
            ;
        }
        let secs: u128 = (ticks_left as u128) * (self.tick_rate_ms as u128) / 1000;
        let h: u128 = secs / 3600;
        let m: u128 = (secs % 3600) / 60;
        let sec: u128 = secs % 60;
        let mut out = String::new();
        push_two_digits(&mut out, h as u64);
        push_char(&mut out, ':');
        push_two_digits(&mut out, m as u64);
        push_char(&mut out, ':');
        push_two_digits(&mut out, sec as u64);
        out
    }
}


/// The knight only moves forward along the trail as time passes, and never
/// beyond its last step.
pub proof fn lemma_knight_moves_forward(t1: int, t2: int, total: int, steps: int)
    requires
        0 <= t1 <= t2,
        total >= 0,
        steps >= 1,
    ensures
        0 <= knight_index_for(t1, total, steps) <= knight_index_for(t2, total, steps) < steps,
{
    if total > 0 {
        let w1 = if t1 < total { t1 } else { total };
        let w2 = if t2 < total { t2 } else { total };
        let n = steps - 1;
        assert(w1 * n <= w2 * n) by (nonlinear_arith)
            requires
                0 <= w1 <= w2,
                n >= 0,
        ;
        assert(w2 * n <= total * n) by (nonlinear_arith)
            requires
                w2 <= total,
                n >= 0,
        ;
        assert(0 <= w1 * n / total <= w2 * n / total <= n) by (nonlinear_arith)
            requires
                0 <= w1 * n <= w2 * n <= total * n,
                total > 0,
                n >= 0,
        ;
    }
}

/// Once the goal time is reached the knight stands on the last step of the
/// trail, at the castle.
pub proof fn lemma_knight_at_castle(ticks: int, total: int, steps: int)
    requires
        ticks >= total >= 0,
        steps >= 1,
    ensures
        knight_index_for(ticks, total, steps) == steps - 1,
{
    if total > 0 {
        let n = steps - 1;
        assert(total * n / total == n) by (nonlinear_arith)
            requires
                total > 0,
        ;
    }
}

/// The countdown never goes up as the march goes on: of two quests that differ
/// only in how far they have marched, the one further along shows no more
/// seconds left, and both show exactly `hh:mm:ss` of their seconds left.
pub proof fn lemma_time_left_shrinks(a: App, b: App)
    requires
        a.hours == b.hours,
        a.mins == b.mins,
        a.tick_rate_ms == b.tick_rate_ms,
        a.ticks <= b.ticks,
    ensures
        b.seconds_left() <= a.seconds_left(),
        a.time_left_text() == clock_text(a.seconds_left()),
        b.time_left_text() == clock_text(b.seconds_left()),
{
    if !b.goal_reached() {
        let r = a.tick_rate_ms as int;
        let la = a.total_ticks() - a.ticks;
        let lb = b.total_ticks() - b.ticks;
        assert(lb * r <= la * r) by (nonlinear_arith)
            requires
                0 <= lb <= la,
                r >= 0,
        ;
        assert(lb * r / 1000 <= la * r / 1000) by (nonlinear_arith)
            requires
                0 <= lb * r <= la * r,
        ;
    }
}


/// On an unpaused march the knight walks one tick per tick of the clock until
/// the goal is reached, and then stays at the castle: after `n` ticks from
/// `ticks` the march stands at `min(ticks + n, total)`, nothing else changes,
/// and the goal is reached exactly when `ticks + n` reaches it.
pub proof fn lemma_march_reaches_castle(app: App, n: nat)
    requires
        app.state == Scene::March,
        app.animation is None,
        !app.is_paused,
        app.ticks <= app.total_ticks(),
    ensures
        after_ticks(app, n) == (App {
            ticks: (if app.ticks + n < app.total_ticks() {
                app.ticks + n
            } else {
                app.total_ticks()
            }) as u64,
            ..app
        }),
        after_ticks(app, n).goal_reached() <==> app.ticks + n >= app.total_ticks(),
    decreases n,
{
    lemma_total_ticks_fits(app.hours, app.mins, app.tick_rate_ms);
    if n > 0 {
        let next = tick_step(app);
        lemma_march_reaches_castle(next, (n - 1) as nat);
    }
}

/// A march never lasts more ticks than a `u64` holds.
pub proof fn lemma_total_ticks_fits(hours: u32, mins: u32, rate_ms: u64)
    ensures
        0 <= total_ticks_for(hours, mins, rate_ms) <= u64::MAX,
{
    let g = (hours * 3600 + mins * 60) * 1000;
    assert(0 <= g <= 0xffff_ffff * 3_660_000) by (nonlinear_arith)
        requires
            g == (hours * 3600 + mins * 60) * 1000,
            0 <= hours <= 0xffff_ffff,
            0 <= mins <= 0xffff_ffff,
    ;
    if rate_ms > 0 {
        assert(g / (rate_ms as int) <= g) by (nonlinear_arith)
            requires
                g >= 0,
                rate_ms >= 1,
        ;
    }
}


/// The march lasts the goal's length in whole ticks: for a positive tick rate,
/// `total * rate` milliseconds fit in the goal and one more tick would not.
pub proof fn lemma_total_ticks_exact(hours: u32, mins: u32, rate_ms: u64)
    requires
        rate_ms > 0,
    ensures
        total_ticks_for(hours, mins, rate_ms) * rate_ms <= (hours * 3600 + mins * 60) * 1000,
        (hours * 3600 + mins * 60) * 1000 < (total_ticks_for(hours, mins, rate_ms) + 1) * rate_ms,
{
    let g = (hours * 3600 + mins * 60) * 1000;
    let r = rate_ms as int;
    let t = total_ticks_for(hours, mins, rate_ms);
    assert(t == g / r);
    assert(t * r <= g < (t + 1) * r) by (nonlinear_arith)
        requires
            t == g / r,
            r > 0,
    ;
}

/// The knight's step is the walked fraction of the trail, rounded down: with
/// `w` the ticks walked (at most the goal), `i * total <= w * (steps - 1) <
/// (i + 1) * total`; at the start the knight is on the first step.
pub proof fn lemma_knight_index_fraction(ticks: int, total: int, steps: int)
    requires
        ticks >= 0,
        total > 0,
        steps >= 1,
    ensures
        ({
            let w = if ticks < total {
                ticks
            } else {
                total
            };
            let i = knight_index_for(ticks, total, steps);
            i * total <= w * (steps - 1) < (i + 1) * total
        }),
        knight_index_for(0, total, steps) == 0,
{
    let w = if ticks < total {
        ticks
    } else {
        total
    };
    let i = knight_index_for(ticks, total, steps);
    let p = w * (steps - 1);
    assert(i == p / total);
    assert(i * total <= p < (i + 1) * total) by (nonlinear_arith)
        requires
            i == p / total,
            total > 0,
    ;
    assert(0 * (steps - 1) / total == 0) by (nonlinear_arith)
        requires
            total > 0,
    ;
}

/// The countdown shows hours, minutes and seconds as two digits each,
/// separated by colons, for less than a hundred hours.
pub proof fn lemma_clock_digits(seconds: nat)
    requires
        seconds < 360000,
    ensures
        ({
            let h = seconds / 3600;
            let m = (seconds % 3600) / 60;
            let s = seconds % 60;
            let d = |n: nat| (('0' as int) + n) as char;
            clock_text(seconds) == seq![
                d(h / 10),
                d(h % 10),
                ':',
                d(m / 10),
                d(m % 10),
                ':',
                d(s / 10),
                d(s % 10),
            ]
        }),
{
    let h = seconds / 3600;
    let m = (seconds % 3600) / 60;
    let s = seconds % 60;
    lemma_two_digits(h);
    lemma_two_digits(m);
    lemma_two_digits(s);
    let d = |n: nat| (('0' as int) + n) as char;
    assert(clock_text(seconds) =~= seq![
        d(h / 10),
        d(h % 10),
        ':',
        d(m / 10),
        d(m % 10),
        ':',
        d(s / 10),
        d(s % 10),
    ]);
}

proof fn lemma_two_digits(n: nat)
    requires
        n < 100,
    ensures
        two_digits(n) == seq![(('0' as int) + n / 10) as char, (('0' as int) + n % 10) as char],
{
    if n < 10 {
        assert(two_digits(n) =~= seq!['0', (('0' as int) + n) as char]);
    } else {
        assert(decimal((n / 10) as nat) == seq![(('0' as int) + n / 10) as char]);
        assert(two_digits(n) =~= seq![(('0' as int) + n / 10) as char, (('0' as int) + n % 10) as char]);
    }
}

/// The slash plays frame after frame: `n` ticks after frame `f` it shows frame
/// `f + n` while that is at most the last frame, and the tick after the last
/// frame ends it and sends the knight back to the march, the clock untouched.
pub proof fn lemma_slash_frames(app: App, n: nat)
    requires
        app.animation matches Some(Animation::Slash { frame }) && frame <= SLASH_LAST_FRAME && frame
            + n <= SLASH_LAST_FRAME + 1,
    ensures
        ({
            let f = app.animation->Some_0->frame;
            let later = after_ticks(app, n);
            &&& (f + n <= SLASH_LAST_FRAME ==> later == (App {
                animation: Some(Animation::Slash { frame: (f + n) as usize }),
                ..app
            }))
            &&& (f + n == SLASH_LAST_FRAME + 1 ==> later == (App {
                animation: None,
                state: Scene::March,
                ..app
            }))
        }),
    decreases n,
{
    if n > 0 {
        let f = app.animation->Some_0->frame;
        if f + 1 <= SLASH_LAST_FRAME {
            let next = tick_step(app);
            assert(next == (App { animation: Some(Animation::Slash { frame: (f + 1) as usize }), ..app }));
            lemma_slash_frames(next, (n - 1) as nat);
            assert(after_ticks(app, n) == after_ticks(next, (n - 1) as nat));
        } else {
            assert(n == 1);
            assert(after_ticks(tick_step(app), 0) == tick_step(app));
        }
    }
}

/// A paused march stands still: no number of ticks changes anything.
pub proof fn lemma_paused_march_waits(app: App, n: nat)
    requires
        app.state == Scene::March,
        app.animation is None,
        app.is_paused,
    ensures
        after_ticks(app, n) == app,
    decreases n,
{
    if n > 0 {
        lemma_paused_march_waits(tick_step(app), (n - 1) as nat);
    }
}

} // verus!
