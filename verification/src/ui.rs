//! What the screen shows, decided apart from the drawing: the slash animation,
//! the part of the map in view, and which trail cells the knight has walked.
use vstd::prelude::*;
use crate::app::App;
use crate::map::{CellType, WorldMap};

verus! {

/// An animation playing over the battle scene.
#[derive(Clone, Copy, Debug, PartialEq, Eq, Structural)]
pub enum Animation {
    Slash { frame: usize },
}

/// The last frame of the slash; the tick after it ends the battle.
pub const SLASH_LAST_FRAME: usize = 12;

pub open spec fn sat_sub(a: int, b: int) -> int {
    if a >= b {
        a - b
    } else {
        0
    }
}

/// The first cell of a window of `view` cells over `size` cells: centred on
/// `center`, then pulled back so that it does not run past the end.
pub open spec fn window_start(center: int, view: int, size: int) -> int {
    let start = sat_sub(center, view / 2);
    if start + view > size {
        sat_sub(size, view)
    } else {
        start
    }
}

pub open spec fn window_end(center: int, view: int, size: int) -> int {
    let end = window_start(center, view, size) + view;
    if end < size {
        end
    } else {
        size
    }
}

/// The range `start..end` of a window of `view` cells over `size` cells,
/// centred on `center` as far as the edges allow.
pub fn window(center: u16, view: u16, size: u16) -> (r: (u16, u16))
    requires
        sat_sub(center as int, (view / 2) as int) + view <= u16::MAX,
    ensures
        r.0 == window_start(center as int, view as int, size as int),
        r.1 == window_end(center as int, view as int, size as int),
{
    let mut start = center.saturating_sub(view / 2);
    if start + view > size {
        start = size.saturating_sub(view);
    }
    let end = if start + view < size {
        start + view
    } else {
        size
    };
    (start, end)
}

/// A window of at least one cell always shows its centre cell.
pub proof fn lemma_window_shows_center(center: int, view: int, size: int)
    requires
        0 <= center < size,
        view >= 1,
    ensures
        window_start(center, view, size) <= center < window_end(center, view, size),
        0 <= window_start(center, view, size),
        window_end(center, view, size) <= size,
{
}

/// A window no larger than what it shows is always full, and away from the
/// edges it starts half a window before its centre.
pub proof fn lemma_window_full(center: int, view: int, size: int)
    requires
        0 <= center < size,
        0 <= view <= size,
    ensures
        window_end(center, view, size) - window_start(center, view, size) == view,
        view / 2 <= center && center + (view - view / 2) <= size ==> window_start(center, view, size)
            == center - view / 2,
{
}

/// Whether the slash, at `frame`, covers character `x` of line `y` of the art:
/// it is a band two characters wide that sweeps right three characters a frame.
pub open spec fn slash_covers_spec(frame: int, x: int, y: int) -> bool {
    let d = x - 3 * frame;
    let e = 3 * y - 2 * x;
    -2 < d < 2 && -15 < e < 15
}

pub fn slash_covers(frame: usize, x: usize, y: usize) -> (b: bool)
    requires
        frame < 0x2aaa_aaaa,
        x < 0x4000_0000,
        y < 0x2aaa_aaaa,
    ensures
        b == slash_covers_spec(frame as int, x as int, y as int),
{
    let slash_pos = (frame * 3) as i64;
    let dx = x as i64;
    let dy = (y * 3) as i64;
    let d = dx - slash_pos;
    let e = dy - dx * 2;
    -2 < d && d < 2 && -15 < e && e < 15
}

impl WorldMap {
    /// Whether the trail cell `(x, y)` lies behind the knight standing on step
    /// `knight` of the trail: on a row below the knight's, or on the knight's
    /// row among the steps already taken.
    pub open spec fn is_walked_spec(&self, x: int, y: int, knight: int) -> bool {
        let k = self.steps()[knight];
        y > k.1 || (y == k.1 && self.steps().subrange(0, knight).contains((x, y)))
    }

    pub fn is_walked(&self, x: u16, y: u16, knight: usize) -> (b: bool)
        requires
            knight < self.path_steps@.len(),
        ensures
            b == self.is_walked_spec(x as int, y as int, knight as int),
    {
        let (_kx, ky) = self.path_steps[knight];
        assert(self.steps()[knight as int].1 == ky as int);
        if y > ky {
            return true;
        }
        if y < ky {
            return false;
        }
        let mut i: usize = 0;
        while i < knight
            invariant
                i <= knight < self.path_steps@.len(),
                y as int == self.steps()[knight as int].1,
                forall|j: int| 0 <= j < i ==> self.path_steps@[j] != (x, y),
            decreases knight - i,
        {
            let (sx, sy) = self.path_steps[i];
            if sx == x && sy == y {
                proof {
                    assert(self.steps()[i as int] == (x as int, y as int));
                    assert(self.steps().subrange(0, knight as int)[i as int] == (x as int, y as int));
                }
                return true;
            }
            i = i + 1;
        }
        proof {
            if self.steps().subrange(0, knight as int).contains((x as int, y as int)) {
                let j = choose|j: int|
                    0 <= j < knight && self.steps().subrange(0, knight as int)[j] == (x as int, y as int);
                assert(self.path_steps@[j] == (x, y));
            }
        }
        false
    }
}


/// A finite set of numbers below `n` has at most `n` members.
pub proof fn lemma_bounded_set_len(s: Set<usize>, n: usize)
    requires
        s.finite(),
        forall|i: usize| #[trigger] s.contains(i) ==> i < n,
    ensures
        s.len() <= n,
    decreases n,
{
    if n > 0 {
        let m = (n - 1) as usize;
        let t = s.remove(m);
        lemma_bounded_set_len(t, m);
    } else {
        if s.len() > 0 {
            let x = s.choose();
            assert(s.contains(x));
        }
    }
}

/// How a cell of the map is drawn.
#[derive(Clone, Copy, Debug, PartialEq, Eq, Structural)]
pub enum TileLook {
    Tree,
    Mountain,
    Water,
    Bridge,
    /// Trail still ahead of the knight.
    Trail,
    /// Grass, and trail the knight has already walked, which looks like grass.
    Ground,
}

/// How a cell is drawn, given whether it is trail the knight has walked.
pub open spec fn tile_look_spec(cell: CellType, walked: bool) -> TileLook {
    match cell {
        CellType::Tree => TileLook::Tree,
        CellType::Mountain => TileLook::Mountain,
        CellType::River => TileLook::Water,
        CellType::Bridge => TileLook::Bridge,
        CellType::Path => if walked {
            TileLook::Ground
        } else {
            TileLook::Trail
        },
        CellType::Grass => TileLook::Ground,
    }
}

pub fn tile_look(cell: CellType, walked: bool) -> (t: TileLook)
    ensures
        t == tile_look_spec(cell, walked),
{
    match cell {
        CellType::Tree => TileLook::Tree,
        CellType::Mountain => TileLook::Mountain,
        CellType::River => TileLook::Water,
        CellType::Bridge => TileLook::Bridge,
        CellType::Path => if walked {
            TileLook::Ground
        } else {
            TileLook::Trail
        },
        CellType::Grass => TileLook::Ground,
    }
}

/// In a well-formed quest the tavern can always count the chosen monsters.
pub proof fn lemma_chosen_count_fits(app: App)
    requires
        app.wf(),
    ensures
        app.chosen_count() <= usize::MAX,
{
    lemma_bounded_set_len(app.selected_indices@, app.available_tasks@.len() as usize);
}

/// The state of the "start quest" button of the tavern.
#[derive(Clone, Copy, Debug, PartialEq, Eq, Structural)]
pub enum StartStatus {
    /// Exactly the goal of monsters is chosen.
    Ready,
    /// More monsters are chosen than the goal; this many.
    TooMany(usize),
    /// This many more monsters are needed.
    NeedMore(usize),
}

/// The line under the march: what the knight may do now.
#[derive(Clone, Copy, Debug, PartialEq, Eq, Structural)]
pub enum QuestStatus {
    AllSlain,
    CastleReached,
    Marching,
}

impl App {
    /// How many monsters the player has chosen in the tavern.
    pub open spec fn chosen_count(&self) -> int {
        (self.selected_indices@.len() + self.custom_monsters@.len()) as int
    }

    pub fn start_status(&self) -> (st: StartStatus)
        requires
            self.chosen_count() <= usize::MAX,
        ensures
            st == if self.chosen_count() == self.monsters_goal {
                StartStatus::Ready
            } else if self.chosen_count() > self.monsters_goal {
                StartStatus::TooMany(self.chosen_count() as usize)
            } else {
                StartStatus::NeedMore((self.monsters_goal - self.chosen_count()) as usize)
            },
    {
        broadcast use vstd::std_specs::hash::group_hash_axioms;

        let chosen = self.selected_indices.len() + self.custom_monsters.len();
        let goal = self.monsters_goal as usize;
        if chosen == goal {
            StartStatus::Ready
        } else if chosen > goal {
            StartStatus::TooMany(chosen)
        } else {
            StartStatus::NeedMore(goal - chosen)
        }
    }

    pub fn quest_status(&self) -> (st: QuestStatus)
        ensures
            st == if self.all_slain() {
                QuestStatus::AllSlain
            } else if self.goal_reached() {
                QuestStatus::CastleReached
            } else {
                QuestStatus::Marching
            },
    {
        if self.all_monsters_slain() {
            QuestStatus::AllSlain
        } else if self.is_goal_reached() {
            QuestStatus::CastleReached
        } else {
            QuestStatus::Marching
        }
    }
}

} // verus!
