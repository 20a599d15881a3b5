//! What each key press does to the quest, scene by scene.
use vstd::prelude::*;
use std::collections::HashSet;
use crate::app::{count_slain, App, Monster, Scene, MONSTER_ART_COUNT};
use crate::dotdo::Task;
use crate::text::{pop_char, push_char};
use crate::ui::Animation;

verus! {

/// A key the player pressed.
#[derive(Clone, Copy, Debug, PartialEq, Eq, Structural)]
pub enum Key {
    Up,
    Down,
    Left,
    Right,
    Enter,
    Esc,
    Backspace,
    Char(char),
    /// Any key the game does not use.
    Other,
}

/// What the caller is to do after a key press.
#[derive(Clone, Copy, Debug, PartialEq, Eq, Structural)]
pub enum Action {
    Continue,
    /// Leave the game.
    Quit,
    /// Tell dotdo that the task with this id is done, then continue.
    MarkTaskDone(u32),
}

pub open spec fn is_pause_key(key: Key) -> bool {
    key == Key::Char('p') || key == Key::Char('P')
}

/// What a key press asks of the caller: `q` quits everywhere but while naming
/// a monster, and the summary also closes on Enter or Esc; slaying a bounty in
/// battle marks its task done.
pub open spec fn action_for(app: App, key: Key) -> Action {
    match app.state {
        Scene::Naming => Action::Continue,
        Scene::Summary => if key == Key::Char('q') || key == Key::Enter || key == Key::Esc {
            Action::Quit
        } else {
            Action::Continue
        },
        Scene::Battle(i) => if key == Key::Char('q') {
            Action::Quit
        } else if key == Key::Char('s') && !app.monsters@[i as int].is_slain
            && app.monsters@[i as int].dotdo_id is Some {
            Action::MarkTaskDone(app.monsters@[i as int].dotdo_id->0)
        } else {
            Action::Continue
        },
        _ => if key == Key::Char('q') {
            Action::Quit
        } else {
            Action::Continue
        },
    }
}

/// The key presses whose effect would not fit in the game's counters: raising
/// the hours or the monster goal past `u32::MAX`, or adding a monster name
/// when the tavern list could no longer be counted.
pub open spec fn exceeds_limits(app: App, key: Key) -> bool {
    ||| app.state == Scene::Setup && key == Key::Right && app.setup_cursor == 0 && app.hours
        == u32::MAX
    ||| app.state == Scene::Setup && key == Key::Right && app.setup_cursor == 1 && app.mins >= 55
        && app.hours == u32::MAX
    ||| app.state == Scene::Setup && key == Key::Right && app.setup_cursor == 2
        && app.monsters_goal == u32::MAX
    ||| app.state == Scene::Naming && key == Key::Enter && app.naming_input@.len() > 0
        && app.available_tasks@.len() + app.custom_monsters@.len() + 3 > usize::MAX
}

/// Left on the setup screen: one hour less, five minutes less (borrowing an
/// hour below zero minutes), or one monster less (never below one).
pub open spec fn setup_lowered(app: App) -> App {
    let c = app.setup_cursor;
    let h = app.hours;
    let m = app.mins;
    App {
        hours: if (c == 0 && h > 0) || (c == 1 && m < 5 && h > 0) {
            (h - 1) as u32
        } else {
            h
        },
        mins: if c == 1 && m >= 5 {
            (m - 5) as u32
        } else if c == 1 && h > 0 {
            55
        } else {
            m
        },
        monsters_goal: if c == 2 && app.monsters_goal > 1 {
            (app.monsters_goal - 1) as u32
        } else {
            app.monsters_goal
        },
        ..app
    }
}

/// Right on the setup screen: one hour more, five minutes more (carrying
/// into the hours past 55), or one monster more.
pub open spec fn setup_raised(app: App) -> App {
    let c = app.setup_cursor;
    let h = app.hours;
    let m = app.mins;
    App {
        hours: if c == 0 || (c == 1 && m >= 55) {
            (h + 1) as u32
        } else {
            h
        },
        mins: if c == 1 && m < 55 {
            (m + 5) as u32
        } else if c == 1 {
            0
        } else {
            m
        },
        monsters_goal: if c == 2 {
            (app.monsters_goal + 1) as u32
        } else {
            app.monsters_goal
        },
        ..app
    }
}

/// The monster a bounty on task `idx` becomes.
pub open spec fn is_bounty(m: Monster, tasks: Seq<Task>, idx: usize) -> bool {
    &&& m.name == tasks[idx as int].title
    &&& !m.is_slain
    &&& m.monster_type@ == "Bounty"@
    &&& m.dotdo_id == Some(tasks[idx as int].id)
    &&& m.art_idx == idx % MONSTER_ART_COUNT
}

/// The monster a wild name at position `pos` of the tavern list becomes.
pub open spec fn is_wild(m: Monster, name: String, pos: int) -> bool {
    &&& m.name == name
    &&& !m.is_slain
    &&& m.monster_type@ == "Wild"@
    &&& m.dotdo_id is None
    &&& m.art_idx == pos % MONSTER_ART_COUNT as int
}

/// The monsters of a quest: the bounties on the tasks in `order`, then the
/// wild monsters named in `custom`.
pub open spec fn is_roster(monsters: Seq<Monster>, tasks: Seq<Task>, order: Seq<usize>, custom: Seq<String>) -> bool {
    &&& monsters.len() == order.len() + custom.len()
    &&& forall|i: int| 0 <= i < order.len() ==> is_bounty(#[trigger] monsters[i], tasks, order[i])
    &&& forall|j: int|
        0 <= j < custom.len() ==> is_wild(
            #[trigger] monsters[order.len() + j],
            custom[j],
            tasks.len() + j,
        )
}

/// The monsters of a quest started with these selected tasks: one bounty per
/// selected task, in some order, then the wild monsters.
pub open spec fn is_quest_roster(monsters: Seq<Monster>, tasks: Seq<Task>, selected: Set<usize>, custom: Seq<String>) -> bool {
    exists|order: Seq<usize>|
        order.no_duplicates() && order.to_set() == selected && #[trigger] is_roster(
            monsters,
            tasks,
            order,
            custom,
        )
}

proof fn lemma_count_slain_bound(s: Seq<Monster>)
    ensures
        count_slain(s) <= s.len(),
    decreases s.len(),
{
    if s.len() > 0 {
        lemma_count_slain_bound(s.drop_last());
    }
}

proof fn lemma_count_slain_none(s: Seq<Monster>)
    requires
        forall|i: int| 0 <= i < s.len() ==> !(#[trigger] s[i]).is_slain,
    ensures
        count_slain(s) == 0,
    decreases s.len(),
{
    if s.len() > 0 {
        lemma_count_slain_none(s.drop_last());
    }
}

proof fn lemma_count_slain_update(s: Seq<Monster>, i: int, m: Monster)
    requires
        0 <= i < s.len(),
        !s[i].is_slain,
        m.is_slain,
    ensures
        count_slain(s.update(i, m)) == count_slain(s) + 1,
    decreases s.len(),
{
    let t = s.update(i, m);
    if i == s.len() - 1 {
        assert(t.drop_last() =~= s.drop_last());
    } else {
        lemma_count_slain_update(s.drop_last(), i, m);
        assert(t.drop_last() =~= s.drop_last().update(i, m));
    }
}


/// Pressing a key on the setup screen moves between the hours, minutes and monster goal, adjusts the one selected, or enters the tavern.
pub open spec fn setup_step(before: App, after: App, key: Key) -> bool {
    &&& (key == Key::Up ==> after == (App {
            setup_cursor: if before.setup_cursor > 0 {
                (before.setup_cursor - 1) as usize
            } else {
                before.setup_cursor
            },
            ..before
        }))
    &&& (key == Key::Down ==> after == (App {
            setup_cursor: if before.setup_cursor < 2 {
                (before.setup_cursor + 1) as usize
            } else {
                before.setup_cursor
            },
            ..before
        }))
    &&& (key == Key::Left ==> after == setup_lowered(before))
    &&& (key == Key::Right ==> after == setup_raised(before))
    &&& (key == Key::Enter ==> after == (App { state: Scene::Tavern, cursor_pos: 0, ..before }))
    &&& (!(key == Key::Up || key == Key::Down || key == Key::Left || key == Key::Right || key
            == Key::Enter) ==> after == before)
}

fn setup_input(app: &mut App, key: Key)
    requires
        old(app).state == Scene::Setup,
        old(app).wf(),
        !exceeds_limits(*old(app), key),
    ensures
        final(app).wf(),
        setup_step(*old(app), *final(app), key),
{
    match key {
        Key::Up => {
            if app.setup_cursor > 0 {
                app.setup_cursor = app.setup_cursor - 1;
            }
        },
        Key::Down => {
            if app.setup_cursor < 2 {
                app.setup_cursor = app.setup_cursor + 1;
            }
        },
        Key::Left => {
            if app.setup_cursor == 0 {
                if app.hours > 0 {
                    app.hours = app.hours - 1;
                }
            } else if app.setup_cursor == 1 {
                if app.mins >= 5 {
                    app.mins = app.mins - 5;
                } else if app.hours > 0 {
                    app.hours = app.hours - 1;
                    app.mins = 55;
                }
            } else if app.setup_cursor == 2 {
                if app.monsters_goal > 1 {
                    app.monsters_goal = app.monsters_goal - 1;
                }
            }
        },
        Key::Right => {
            if app.setup_cursor == 0 {
                app.hours = app.hours + 1;
            } else if app.setup_cursor == 1 {
                if app.mins < 55 {
                    app.mins = app.mins + 5;
                } else {
                    app.hours = app.hours + 1;
                    app.mins = 0;
                }
            } else if app.setup_cursor == 2 {
                app.monsters_goal = app.monsters_goal + 1;
            }
        },
        Key::Enter => {
            app.state = Scene::Tavern;
            app.cursor_pos = 0;
        },
        _ => {},
    }
}


/// The monsters of a quest: a bounty for each selected task, in the order the
/// set yields them, then a wild monster for each custom name.
fn build_roster(tasks: &Vec<Task>, selected: &HashSet<usize>, custom: &Vec<String>) -> (monsters: Vec<Monster>)
    requires
        forall|i: usize| #[trigger] selected@.contains(i) ==> i < tasks@.len(),
        tasks@.len() + custom@.len() + 2 <= usize::MAX,
    ensures
        is_quest_roster(monsters@, tasks@, selected@, custom@),
        forall|i: int| 0 <= i < monsters@.len() ==> !(#[trigger] monsters@[i]).is_slain,
{
    broadcast use vstd::std_specs::hash::group_hash_axioms;

    let mut monsters: Vec<Monster> = Vec::new();
    let ghost mut order: Seq<usize> = Seq::empty();
    for idx_ref in it: selected.iter()
        invariant
            forall|i: usize| #[trigger] selected@.contains(i) ==> i < tasks@.len(),
            it.seq().unref().to_set() == selected@,
            it.seq().no_duplicates(),
            order == it.seq().unref().take(it.index()),
            it.index() == it.seq().len() ==> order.to_set() == selected@,
            order.no_duplicates(),
            monsters@.len() == it.index(),
            forall|i: int| 0 <= i < it.index() ==> is_bounty(#[trigger] monsters@[i], tasks@, order[i]),
    {
        let idx = *idx_ref;
        assert(selected@.contains(idx));
        let task = &tasks[idx];
        monsters.push(
            Monster {
                name: task.title.clone(),
                is_slain: false,
                monster_type: "Bounty".to_owned(),
                dotdo_id: Some(task.id),
                art_idx: idx % MONSTER_ART_COUNT,
            },
        );
        proof {
            order = order.push(idx);
        }
        assert(it.seq().unref().take(it.index() + 1) =~= order);
        assert forall|a: int, b: int| 0 <= a < b < order.len() implies order[a] != order[b] by {
            assert(it.seq()[a] != it.seq()[b]);
        }
        assert(it.index() + 1 == it.seq().len() ==> order =~= it.seq().unref());
    }
    let n = monsters.len();
    let mut j: usize = 0;
    while j < custom.len()
        invariant
            n == order.len(),
            j <= custom@.len(),
            tasks@.len() + custom@.len() + 2 <= usize::MAX,
            monsters@.len() == n + j,
            forall|i: int| 0 <= i < n ==> is_bounty(#[trigger] monsters@[i], tasks@, order[i]),
            forall|k: int|
                0 <= k < j ==> is_wild(#[trigger] monsters@[n + k], custom@[k], tasks@.len() + k),
        decreases custom@.len() - j,
    {
        monsters.push(
            Monster {
                name: custom[j].clone(),
                is_slain: false,
                monster_type: "Wild".to_owned(),
                dotdo_id: None,
                art_idx: (tasks.len() + j) % MONSTER_ART_COUNT,
            },
        );
        j = j + 1;
    }
    assert(is_roster(monsters@, tasks@, order, custom@));
    assert forall|i: int| 0 <= i < monsters@.len() implies !(#[trigger] monsters@[i]).is_slain by {
        if i >= n {
            assert(is_wild(monsters@[n + (i - n)], custom@[i - n], tasks@.len() + (i - n)));
        }
    }
    monsters
}


/// The number of entries on the tavern list before its two buttons: the
/// tasks, then the custom monsters.
pub open spec fn tavern_entries(app: App) -> nat {
    app.available_tasks@.len() + app.custom_monsters@.len()
}

/// Pressing a key in the tavern moves along the list, toggles a task as a bounty, opens the name prompt, or starts the quest once exactly the goal of monsters is chosen.
pub open spec fn tavern_step(before: App, after: App, key: Key) -> bool {
    &&& (key == Key::Up ==> after == (App {
            cursor_pos: if before.cursor_pos > 0 {
                (before.cursor_pos - 1) as usize
            } else {
                before.cursor_pos
            },
            ..before
        }))
    &&& (key == Key::Down ==> after == (App {
            cursor_pos: if before.cursor_pos < tavern_entries(before) + 1 {
                (before.cursor_pos + 1) as usize
            } else {
                before.cursor_pos
            },
            ..before
        }))
    &&& ((key == Key::Enter || key == Key::Char(' ')) && before.cursor_pos
            < before.available_tasks@.len() ==> {
            &&& after == (App { selected_indices: after.selected_indices, ..before })
            &&& after.selected_indices@ == if before.selected_indices@.contains(
                before.cursor_pos,
            ) {
                before.selected_indices@.remove(before.cursor_pos)
            } else {
                before.selected_indices@.insert(before.cursor_pos)
            }
        })
    &&& ((key == Key::Enter || key == Key::Char(' ')) && before.cursor_pos == tavern_entries(
            before,
        ) ==> {
            &&& after == (App {
                state: Scene::Naming,
                naming_input: after.naming_input,
                ..before
            })
            &&& after.naming_input@.len() == 0
        })
    &&& ((key == Key::Enter || key == Key::Char(' ')) && before.cursor_pos == tavern_entries(
            before,
        ) + 1 ==> if before.selected_indices@.len() + before.custom_monsters@.len()
            == before.monsters_goal {
            &&& after == (App {
                state: Scene::March,
                monsters: after.monsters,
                ..before
            })
            &&& is_quest_roster(
                after.monsters@,
                before.available_tasks@,
                before.selected_indices@,
                before.custom_monsters@,
            )
        } else {
            after == before
        })
    &&& ((key == Key::Enter || key == Key::Char(' ')) && before.available_tasks@.len()
            <= before.cursor_pos < tavern_entries(before) ==> after == before)
    &&& ((key == Key::Enter || key == Key::Char(' ')) && before.cursor_pos > tavern_entries(
            before,
        ) + 1 ==> after == before)
    &&& (!(key == Key::Up || key == Key::Down || key == Key::Enter || key == Key::Char(' '))
            ==> after == before)
}

fn tavern_input(app: &mut App, key: Key)
    requires
        old(app).state == Scene::Tavern,
        old(app).wf(),
    ensures
        final(app).wf(),
        tavern_step(*old(app), *final(app), key),
{
    broadcast use vstd::std_specs::hash::group_hash_axioms;

    let tasks_len = app.available_tasks.len();
    let custom_len = app.custom_monsters.len();
    match key {
        Key::Up => {
            if app.cursor_pos > 0 {
                app.cursor_pos = app.cursor_pos - 1;
            }
        },
        Key::Down => {
            let max_pos = tasks_len + custom_len + 1;
            if app.cursor_pos < max_pos {
                app.cursor_pos = app.cursor_pos + 1;
            }
        },
        Key::Enter | Key::Char(' ') => {
            let pos = app.cursor_pos;
            if pos < tasks_len {
                if app.selected_indices.contains(&pos) {
                    app.selected_indices.remove(&pos);
                } else {
                    app.selected_indices.insert(pos);
                }
            } else if pos < tasks_len + custom_len {
            } else if pos == tasks_len + custom_len {
                app.state = Scene::Naming;
                app.naming_input = String::new();
            } else if pos == tasks_len + custom_len + 1 {
                let selected_count: u128 = app.selected_indices.len() as u128 + custom_len as u128;
                if selected_count == app.monsters_goal as u128 {
                    let roster = build_roster(
                        &app.available_tasks,
                        &app.selected_indices,
                        &app.custom_monsters,
                    );
                    proof {
                        lemma_count_slain_none(roster@);
                    }
                    app.monsters = roster;
                    app.state = Scene::March;
                }
            }
        },
        _ => {},
    }
}


/// Pressing a key at the name prompt edits the name, adds it as a wild monster on Enter, or returns to the tavern on Esc.
pub open spec fn naming_step(before: App, after: App, key: Key) -> bool {
    &&& (key == Key::Enter && before.naming_input@.len() > 0 ==> {
            &&& after == (App {
                state: Scene::Tavern,
                custom_monsters: after.custom_monsters,
                cursor_pos: tavern_entries(before) as usize,
                ..before
            })
            &&& after.custom_monsters@ == before.custom_monsters@.push(before.naming_input)
        })
    &&& (key == Key::Enter && before.naming_input@.len() == 0 ==> after == before)
    &&& (key == Key::Esc ==> after == (App { state: Scene::Tavern, ..before }))
    &&& (key matches Key::Char(c) ==> {
            &&& after == (App { naming_input: after.naming_input, ..before })
            &&& after.naming_input@ == before.naming_input@.push(c)
        })
    &&& (key == Key::Backspace ==> {
            &&& after == (App { naming_input: after.naming_input, ..before })
            &&& after.naming_input@ == if before.naming_input@.len() > 0 {
                before.naming_input@.drop_last()
            } else {
                before.naming_input@
            }
        })
    &&& (!(key == Key::Enter || key == Key::Esc || key == Key::Backspace || key is Char)
            ==> after == before)
}

fn naming_input(app: &mut App, key: Key)
    requires
        old(app).state == Scene::Naming,
        old(app).wf(),
        !exceeds_limits(*old(app), key),
    ensures
        final(app).wf(),
        naming_step(*old(app), *final(app), key),
{
    match key {
        Key::Enter => {
            if app.naming_input.unicode_len() > 0 {
                let name = app.naming_input.clone();
                app.custom_monsters.push(name);
                app.state = Scene::Tavern;
                app.cursor_pos = app.available_tasks.len() + app.custom_monsters.len() - 1;
            }
        },
        Key::Esc => {
            app.state = Scene::Tavern;
        },
        Key::Char(c) => {
            push_char(&mut app.naming_input, c);
        },
        Key::Backspace => {
            let _ = pop_char(&mut app.naming_input);
        },
        _ => {},
    }
}

/// Pressing a key on the march opens the target list, completes a finished quest, or pauses and resumes.
pub open spec fn march_step(before: App, after: App, key: Key) -> bool {
    &&& (key == Key::Char('s') ==> after == if before.monsters@.len() > 0 {
            App { state: Scene::Selection, cursor_pos: 0, ..before }
        } else {
            before
        })
    &&& (key == Key::Char('c') ==> after == if before.quest_finished() {
            App { state: Scene::Summary, ..before }
        } else {
            before
        })
    &&& (is_pause_key(key) ==> after == (App { is_paused: !before.is_paused, ..before }))
    &&& (!(key == Key::Char('s') || key == Key::Char('c') || is_pause_key(key)) ==> after
            == before)
}

fn march_input(app: &mut App, key: Key)
    requires
        old(app).state == Scene::March,
        old(app).wf(),
    ensures
        final(app).wf(),
        march_step(*old(app), *final(app), key),
{
    match key {
        Key::Char('s') => {
            if app.monsters.len() > 0 {
                app.state = Scene::Selection;
                app.cursor_pos = 0;
            }
        },
        Key::Char('c') => {
            if app.is_quest_finished() {
                app.state = Scene::Summary;
            }
        },
        Key::Char('p') | Key::Char('P') => {
            app.is_paused = !app.is_paused;
        },
        _ => {},
    }
}

/// Pressing a key at the target list moves the cursor, starts the battle with the chosen monster, returns to the march, or pauses and resumes.
pub open spec fn selection_step(before: App, after: App, key: Key) -> bool {
    &&& (key == Key::Up ==> after == (App {
            cursor_pos: if before.cursor_pos > 0 {
                (before.cursor_pos - 1) as usize
            } else {
                before.cursor_pos
            },
            ..before
        }))
    &&& (key == Key::Down ==> after == (App {
            cursor_pos: if before.cursor_pos + 1 < before.monsters@.len() {
                (before.cursor_pos + 1) as usize
            } else {
                before.cursor_pos
            },
            ..before
        }))
    &&& (key == Key::Enter ==> after == (App {
            state: Scene::Battle(before.cursor_pos),
            ..before
        }))
    &&& (key == Key::Char('s') || key == Key::Esc ==> after == (App {
            state: Scene::March,
            ..before
        }))
    &&& (is_pause_key(key) ==> after == (App { is_paused: !before.is_paused, ..before }))
    &&& (!(key == Key::Up || key == Key::Down || key == Key::Enter || key == Key::Char('s') || key
            == Key::Esc || is_pause_key(key)) ==> after == before)
}

fn selection_input(app: &mut App, key: Key)
    requires
        old(app).state == Scene::Selection,
        old(app).wf(),
    ensures
        final(app).wf(),
        selection_step(*old(app), *final(app), key),
{
    match key {
        Key::Up => {
            if app.cursor_pos > 0 {
                app.cursor_pos = app.cursor_pos - 1;
            }
        },
        Key::Down => {
            if app.monsters.len() > 0 && app.cursor_pos + 1 < app.monsters.len() {
                app.cursor_pos = app.cursor_pos + 1;
            }
        },
        Key::Enter => {
            if app.monsters.len() > 0 {
                app.state = Scene::Battle(app.cursor_pos);
            }
        },
        Key::Char('s') | Key::Esc => {
            app.state = Scene::March;
        },
        Key::Char('p') | Key::Char('P') => {
            app.is_paused = !app.is_paused;
        },
        _ => {},
    }
}

/// Pressing a key in battle slays the monster (once), flees to the march, or
/// pauses and resumes.
pub open spec fn battle_step(before: App, after: App, key: Key) -> bool {
    let idx = before.state->Battle_0;
    &&& (key == Key::Char('s') && !before.monsters@[idx as int].is_slain ==> {
        &&& after == (App {
            monsters: after.monsters,
            slain_count: (before.slain_count + 1) as usize,
            animation: Some(Animation::Slash { frame: 0 }),
            ..before
        })
        &&& after.monsters@ == before.monsters@.update(
            idx as int,
            Monster { is_slain: true, ..before.monsters@[idx as int] },
        )
    })
    &&& (key == Key::Char('s') && before.monsters@[idx as int].is_slain ==> after == before)
    &&& (key == Key::Char('f') || key == Key::Esc ==> after == (App { state: Scene::March, ..before }))
    &&& (is_pause_key(key) ==> after == (App { is_paused: !before.is_paused, ..before }))
    &&& (!(key == Key::Char('s') || key == Key::Char('f') || key == Key::Esc || is_pause_key(key))
        ==> after == before)
}

fn battle_input(app: &mut App, idx: usize, key: Key) -> (done: Option<u32>)
    requires
        old(app).state == Scene::Battle(idx),
        old(app).wf(),
    ensures
        final(app).wf(),
        battle_step(*old(app), *final(app), key),
        done == if key == Key::Char('s') && !old(app).monsters@[idx as int].is_slain {
            old(app).monsters@[idx as int].dotdo_id
        } else {
            None
        },
{
    match key {
        Key::Char('s') => {
            if !app.monsters[idx].is_slain {
                proof {
                    lemma_count_slain_update(
                        app.monsters@,
                        idx as int,
                        Monster { is_slain: true, ..app.monsters@[idx as int] },
                    );
                    lemma_count_slain_bound(
                        app.monsters@.update(
                            idx as int,
                            Monster { is_slain: true, ..app.monsters@[idx as int] },
                        ),
                    );
                }
                assert(app.monsters@.len() == app.monsters.len());
                app.slain_count = app.slain_count + 1;
                app.monsters[idx].is_slain = true;
                app.animation = Some(Animation::Slash { frame: 0 });
                return app.monsters[idx].dotdo_id;
            }
        },
        Key::Char('f') | Key::Esc => {
            app.state = Scene::March;
        },
        Key::Char('p') | Key::Char('P') => {
            app.is_paused = !app.is_paused;
        },
        _ => {},
    }
    None
}


/// What a key press does to the quest in each scene; the summary ignores keys.
pub open spec fn input_step(before: App, after: App, key: Key) -> bool {
    &&& (before.state == Scene::Setup ==> setup_step(before, after, key))
    &&& (before.state == Scene::Tavern ==> tavern_step(before, after, key))
    &&& (before.state == Scene::Naming ==> naming_step(before, after, key))
    &&& (before.state == Scene::March ==> march_step(before, after, key))
    &&& (before.state == Scene::Selection ==> selection_step(before, after, key))
    &&& (before.state is Battle ==> battle_step(before, after, key))
    &&& (before.state == Scene::Summary ==> after == before)
}

/// Applies a key press to the quest and says what the caller is to do next.
pub fn handle_input(app: &mut App, key: Key) -> (action: Action)
    requires
        old(app).wf(),
        !exceeds_limits(*old(app), key),
    ensures
        final(app).wf(),
        action == action_for(*old(app), key),
        input_step(*old(app), *final(app), key),
{
    let quit = key == Key::Char('q');
    match app.state {
        Scene::Setup => {
            setup_input(app, key);
        },
        Scene::Tavern => {
            tavern_input(app, key);
        },
        Scene::Naming => {
            naming_input(app, key);
            return Action::Continue;
        },
        Scene::March => {
            march_input(app, key);
        },
        Scene::Selection => {
            selection_input(app, key);
        },
        Scene::Battle(idx) => {
            let done = battle_input(app, idx, key);
            if let Some(id) = done {
                return Action::MarkTaskDone(id);
            }
        },
        Scene::Summary => {
            if key == Key::Enter || key == Key::Esc {
                return Action::Quit;
            }
        },
    }
    if quit {
        Action::Quit
    } else {
        Action::Continue
    }
}


/// Quitting leaves the quest as it was.
pub proof fn lemma_quit_changes_nothing(before: App, after: App, key: Key)
    requires
        before.wf(),
        input_step(before, after, key),
        action_for(before, key) == Action::Quit,
    ensures
        after == before,
{
}

/// A slain monster stays slain, and the count of slain monsters never drops.
pub proof fn lemma_slain_stay_slain(before: App, after: App, key: Key)
    requires
        before.wf(),
        input_step(before, after, key),
    ensures
        after.slain_count >= before.slain_count,
        forall|i: int|
            0 <= i < before.monsters@.len() && (#[trigger] before.monsters@[i]).is_slain ==> {
                &&& i < after.monsters@.len()
                &&& after.monsters@[i].is_slain
            },
{
    if before.state is Battle {
        let idx = before.state->Battle_0;
        if key == Key::Char('s') && !before.monsters@[idx as int].is_slain {
            let m = Monster { is_slain: true, ..before.monsters@[idx as int] };
            lemma_count_slain_update(before.monsters@, idx as int, m);
            lemma_count_slain_bound(before.monsters@.update(idx as int, m));
            assert(before.monsters@.len() == before.monsters.len());
            assert forall|i: int|
                0 <= i < before.monsters@.len() && (#[trigger] before.monsters@[i]).is_slain implies {
                    &&& i < after.monsters@.len()
                    &&& after.monsters@[i].is_slain
                } by {
                assert(i != idx);
            }
        }
    }
}

/// The quest can be completed only once it is finished: the castle reached or
/// every monster slain.
pub proof fn lemma_complete_only_when_finished(before: App, after: App, key: Key)
    requires
        before.wf(),
        input_step(before, after, key),
        before.state != Scene::Summary,
        after.state == Scene::Summary,
    ensures
        before.quest_finished(),
{
}

/// A quest starts with exactly the goal of monsters, none of them slain, and
/// nothing slain yet.
pub proof fn lemma_quest_starts_with_goal(before: App, after: App, key: Key)
    requires
        before.wf(),
        input_step(before, after, key),
        before.state == Scene::Tavern,
        after.state == Scene::March,
    ensures
        after.monsters@.len() == before.monsters_goal,
        forall|i: int| 0 <= i < after.monsters@.len() ==> !(#[trigger] after.monsters@[i]).is_slain,
        after.slain_count == 0,
{
    let order = choose|order: Seq<usize>|
        order.no_duplicates() && order.to_set() == before.selected_indices@ && #[trigger] is_roster(
            after.monsters@,
            before.available_tasks@,
            order,
            before.custom_monsters@,
        );
    order.unique_seq_to_set();
    let n = order.len();
    assert forall|i: int| 0 <= i < after.monsters@.len() implies !(#[trigger] after.monsters@[i]).is_slain by {
        if i >= n {
            assert(is_wild(
                after.monsters@[n + (i - n)],
                before.custom_monsters@[i - n],
                before.available_tasks@.len() + (i - n),
            ));
        }
    }
    lemma_count_slain_none(after.monsters@);
}


/// `q` quits in every scene but the name prompt, where it is typed as a letter
/// of the name; the summary also closes on Enter or Esc; no other key quits.
pub proof fn lemma_quit_keys(app: App, key: Key)
    ensures
        action_for(app, key) == Action::Quit <==> ((app.state != Scene::Naming && key == Key::Char(
            'q',
        )) || (app.state == Scene::Summary && (key == Key::Enter || key == Key::Esc))),
{
}


/// Enter on the target list starts the battle with the monster under the
/// cursor, and leaves the monsters as they are.
pub proof fn lemma_fight_the_chosen(before: App, after: App)
    requires
        before.wf(),
        before.state == Scene::Selection,
        input_step(before, after, Key::Enter),
    ensures
        after.state == Scene::Battle(before.cursor_pos),
        after.monsters == before.monsters,
        after.slain_count == before.slain_count,
{
}

/// Choosing a monster on the target list and pressing `s` slays that monster
/// and no other, and asks to mark that monster's own task done.
pub proof fn lemma_slay_the_chosen(before: App, mid: App, after: App)
    requires
        before.wf(),
        before.state == Scene::Selection,
        input_step(before, mid, Key::Enter),
        input_step(mid, after, Key::Char('s')),
        !before.monsters@[before.cursor_pos as int].is_slain,
    ensures
        after.monsters@.len() == before.monsters@.len(),
        after.monsters@[before.cursor_pos as int].is_slain,
        after.monsters@[before.cursor_pos as int].name == before.monsters@[before.cursor_pos as int].name,
        forall|j: int|
            0 <= j < before.monsters@.len() && j != before.cursor_pos ==> after.monsters@[j]
                == before.monsters@[j],
        action_for(mid, Key::Char('s')) == match before.monsters@[before.cursor_pos as int].dotdo_id {
            Some(id) => Action::MarkTaskDone(id),
            None => Action::Continue,
        },
{
}

/// On the march, `c` completes the quest whenever it is finished: every
/// monster slain, or the march has lasted its goal; otherwise it does nothing.
pub proof fn lemma_complete_when_finished(before: App, after: App)
    requires
        before.state == Scene::March,
        input_step(before, after, Key::Char('c')),
    ensures
        (before.monsters@.len() > 0 && forall|i: int|
            0 <= i < before.monsters@.len() ==> (#[trigger] before.monsters@[i]).is_slain)
            ==> after.state == Scene::Summary,
        before.ticks >= before.total_ticks() ==> after.state == Scene::Summary,
        !(before.monsters@.len() > 0 && forall|i: int|
            0 <= i < before.monsters@.len() ==> (#[trigger] before.monsters@[i]).is_slain)
            && before.ticks < before.total_ticks() ==> after == before,
        after.monsters == before.monsters,
        after.ticks == before.ticks,
{
}

/// On the setup screen, Left and Right change the goal by one hour on the
/// hours (keeping the minutes), by five minutes on the minutes (for the
/// minutes the screen offers, 0 to 55 in fives, and never below zero), and by
/// one monster on the monster goal (never below one); each field leaves the
/// others alone.
pub proof fn lemma_setup_adjusts(before: App, after: App, key: Key)
    requires
        before.state == Scene::Setup,
        input_step(before, after, key),
        key == Key::Left || key == Key::Right,
        !exceeds_limits(before, key),
    ensures
        ({
            let d0 = before.hours * 60 + before.mins;
            let d1 = after.hours * 60 + after.mins;
            &&& (before.setup_cursor == 0 && key == Key::Right ==> after.hours == before.hours + 1
                && after.mins == before.mins)
            &&& (before.setup_cursor == 0 && key == Key::Left && before.hours > 0 ==> after.hours
                == before.hours - 1 && after.mins == before.mins)
            &&& (before.setup_cursor == 0 && key == Key::Left && before.hours == 0 ==> d1 == d0)
            &&& (before.setup_cursor == 1 && before.mins <= 55 && before.mins % 5 == 0 ==> {
                &&& after.mins <= 55
                &&& after.mins % 5 == 0
                &&& (key == Key::Right ==> d1 == d0 + 5)
                &&& (key == Key::Left && d0 >= 5 ==> d1 == d0 - 5)
                &&& (key == Key::Left && d0 < 5 ==> d1 == d0)
            })
            &&& (before.setup_cursor != 2 ==> after.monsters_goal == before.monsters_goal)
            &&& (before.setup_cursor == 2 ==> d1 == d0)
            &&& (before.setup_cursor == 2 && key == Key::Right ==> after.monsters_goal
                == before.monsters_goal + 1)
            &&& (before.setup_cursor == 2 && key == Key::Left ==> after.monsters_goal == (if before.monsters_goal
                > 1 {
                before.monsters_goal - 1
            } else {
                before.monsters_goal as int
            }))
            &&& (before.setup_cursor > 2 ==> after == before)
        }),
        after.state == Scene::Setup,
        after.setup_cursor == before.setup_cursor,
        after.monsters == before.monsters,
{
}

/// At the name prompt the wild monsters change only when Enter confirms a
/// name that is not empty, which adds exactly that name at the end and returns
/// to the tavern; every other key, Esc included, leaves the monsters and the
/// tavern cursor as they are, and Esc returns to the tavern.
pub proof fn lemma_names_added_only_on_enter(before: App, after: App, key: Key)
    requires
        before.state == Scene::Naming,
        input_step(before, after, key),
    ensures
        key == Key::Enter && before.naming_input@.len() > 0 ==> {
            &&& after.custom_monsters@ == before.custom_monsters@.push(before.naming_input)
            &&& after.state == Scene::Tavern
        },
        !(key == Key::Enter && before.naming_input@.len() > 0) ==> {
            &&& after.custom_monsters@ == before.custom_monsters@
            &&& after.cursor_pos == before.cursor_pos
        },
        key == Key::Esc ==> after.state == Scene::Tavern && after.naming_input == before.naming_input,
        after.available_tasks == before.available_tasks,
        after.selected_indices == before.selected_indices,
{
}

/// In the tavern, Enter or Space on a task adds it to the bounties if it was
/// not chosen and takes it off if it was, and changes no other choice.
pub proof fn lemma_tavern_toggles(before: App, after: App, key: Key)
    requires
        before.state == Scene::Tavern,
        input_step(before, after, key),
        key == Key::Enter || key == Key::Char(' '),
        before.cursor_pos < before.available_tasks@.len(),
    ensures
        after.selected_indices@.contains(before.cursor_pos) == !before.selected_indices@.contains(
            before.cursor_pos,
        ),
        forall|i: usize|
            i != before.cursor_pos ==> (#[trigger] after.selected_indices@.contains(i)
                == before.selected_indices@.contains(i)),
        after.state == Scene::Tavern,
        after.monsters == before.monsters,
{
}


/// The quest does not start unless exactly the goal of monsters is chosen:
/// Enter on the start button with more or fewer chosen stays in the tavern and
/// changes nothing.
pub proof fn lemma_start_needs_goal(before: App, after: App, key: Key)
    requires
        before.state == Scene::Tavern,
        input_step(before, after, key),
        key == Key::Enter || key == Key::Char(' '),
        before.cursor_pos == before.available_tasks@.len() + before.custom_monsters@.len() + 1,
        before.selected_indices@.len() + before.custom_monsters@.len() != before.monsters_goal,
    ensures
        after == before,
{
}

/// Fleeing a battle returns to the march and leaves the monsters as they are.
pub proof fn lemma_flee(before: App, after: App, key: Key)
    requires
        before.state is Battle,
        input_step(before, after, key),
        key == Key::Char('f') || key == Key::Esc,
    ensures
        after.state == Scene::March,
        after.monsters == before.monsters,
        after.slain_count == before.slain_count,
{
}

} // verus!
