use venture::app::{App, Scene};
use venture::controller::{handle_input, Action, Key};
use venture::dotdo::Task;
use venture::map::WorldMap;
use venture::ui::Animation;

fn task(id: u32, title: &str) -> Task {
    Task { id, title: title.to_string(), status: "todo".to_string(), due: String::new() }
}

fn app() -> App {
    App::new(
        vec![task(11, "Write report"), task(12, "Fix bug"), task(13, "Call mom")],
        WorldMap::new(9, 6, &vec![0; 6], &vec![]),
    )
}

fn press(a: &mut App, keys: &[Key]) -> Vec<Action> {
    keys.iter().map(|k| handle_input(a, *k)).collect()
}

#[test]
fn setup_cursor_moves_within_three_fields() {
    let mut a = app();
    press(&mut a, &[Key::Up]);
    assert_eq!(a.setup_cursor, 0);
    press(&mut a, &[Key::Down, Key::Down, Key::Down]);
    assert_eq!(a.setup_cursor, 2);
    press(&mut a, &[Key::Up]);
    assert_eq!(a.setup_cursor, 1);
}

#[test]
fn setup_adjusts_hours_minutes_and_goal() {
    let mut a = app();
    press(&mut a, &[Key::Right]);
    assert_eq!(a.hours, 2);
    press(&mut a, &[Key::Left, Key::Left, Key::Left]);
    assert_eq!(a.hours, 0);
    press(&mut a, &[Key::Down, Key::Right]);
    assert_eq!((a.hours, a.mins), (0, 5));
    press(&mut a, &[Key::Left, Key::Left]);
    assert_eq!((a.hours, a.mins), (0, 0));
    press(&mut a, &[Key::Down, Key::Left, Key::Left, Key::Left]);
    assert_eq!(a.monsters_goal, 1);
    press(&mut a, &[Key::Right]);
    assert_eq!(a.monsters_goal, 2);
}

#[test]
fn minutes_carry_into_hours() {
    let mut a = app();
    a.setup_cursor = 1;
    a.mins = 55;
    press(&mut a, &[Key::Right]);
    assert_eq!((a.hours, a.mins), (2, 0));
    press(&mut a, &[Key::Left]);
    assert_eq!((a.hours, a.mins), (1, 55));
}

#[test]
fn q_quits_and_changes_nothing() {
    let mut a = app();
    assert_eq!(handle_input(&mut a, Key::Char('q')), Action::Quit);
    assert_eq!(a.state, Scene::Setup);
    assert_eq!(handle_input(&mut a, Key::Char('x')), Action::Continue);
}

#[test]
fn enter_goes_to_tavern() {
    let mut a = app();
    a.cursor_pos = 4;
    assert_eq!(handle_input(&mut a, Key::Enter), Action::Continue);
    assert_eq!(a.state, Scene::Tavern);
    assert_eq!(a.cursor_pos, 0);
}

#[test]
fn tavern_toggles_bounties() {
    let mut a = app();
    press(&mut a, &[Key::Enter, Key::Char(' ')]);
    assert!(a.selected_indices.contains(&0));
    press(&mut a, &[Key::Enter]);
    assert!(!a.selected_indices.contains(&0));
    press(&mut a, &[Key::Down, Key::Down, Key::Enter]);
    assert!(a.selected_indices.contains(&2));
    assert_eq!(a.selected_indices.len(), 1);
}

#[test]
fn tavern_cursor_stops_at_start_button() {
    let mut a = app();
    press(&mut a, &[Key::Enter]);
    for _ in 0..10 {
        press(&mut a, &[Key::Down]);
    }
    assert_eq!(a.cursor_pos, 4);
    press(&mut a, &[Key::Up]);
    assert_eq!(a.cursor_pos, 3);
}

#[test]
fn naming_a_wild_monster() {
    let mut a = app();
    press(&mut a, &[Key::Enter, Key::Down, Key::Down, Key::Down, Key::Enter]);
    assert_eq!(a.state, Scene::Naming);
    assert_eq!(a.naming_input, "");
    let acts = press(&mut a, &[Key::Char('W'), Key::Char('q'), Key::Char('x'), Key::Backspace, Key::Char('f')]);
    assert!(acts.iter().all(|x| *x == Action::Continue));
    assert_eq!(a.naming_input, "Wqf");
    press(&mut a, &[Key::Enter]);
    assert_eq!(a.state, Scene::Tavern);
    assert_eq!(a.custom_monsters, vec!["Wqf".to_string()]);
    assert_eq!(a.cursor_pos, 3);
}

#[test]
fn empty_name_is_not_added_and_esc_leaves() {
    let mut a = app();
    press(&mut a, &[Key::Enter, Key::Down, Key::Down, Key::Down, Key::Enter]);
    press(&mut a, &[Key::Backspace, Key::Enter]);
    assert_eq!(a.state, Scene::Naming);
    press(&mut a, &[Key::Esc]);
    assert_eq!(a.state, Scene::Tavern);
    assert!(a.custom_monsters.is_empty());
}

#[test]
fn quest_starts_only_with_goal_met() {
    let mut a = app();
    press(&mut a, &[Key::Enter, Key::Char(' '), Key::Down, Key::Char(' ')]);
    // two bounties chosen, goal three: start does nothing
    press(&mut a, &[Key::Down, Key::Down, Key::Down, Key::Enter]);
    assert_eq!(a.cursor_pos, 4);
    assert_eq!(a.state, Scene::Tavern);
    // add a wild monster
    press(&mut a, &[Key::Up, Key::Enter, Key::Char('W'), Key::Enter]);
    assert_eq!(a.cursor_pos, 3);
    press(&mut a, &[Key::Down, Key::Down, Key::Enter]);
    assert_eq!(a.state, Scene::March);
    assert_eq!(a.monsters.len(), 3);
    let mut bounty: Vec<(String, Option<u32>, usize)> = a.monsters[..2]
        .iter()
        .map(|m| (m.name.clone(), m.dotdo_id, m.art_idx))
        .collect();
    bounty.sort();
    assert_eq!(
        bounty,
        vec![("Fix bug".to_string(), Some(12), 1), ("Write report".to_string(), Some(11), 0)]
    );
    assert!(a.monsters[..2].iter().all(|m| m.monster_type == "Bounty" && !m.is_slain));
    let wild = &a.monsters[2];
    assert_eq!(wild.name, "W");
    assert_eq!(wild.monster_type, "Wild");
    assert_eq!(wild.dotdo_id, None);
    assert_eq!(wild.art_idx, 3);
}

fn marching() -> App {
    let mut a = app();
    a.monsters_goal = 1;
    press(&mut a, &[Key::Enter, Key::Char(' '), Key::Down, Key::Down, Key::Down, Key::Down, Key::Enter]);
    assert_eq!(a.state, Scene::March);
    a
}

#[test]
fn slaying_a_bounty_marks_its_task_done() {
    let mut a = marching();
    press(&mut a, &[Key::Char('s')]);
    assert_eq!(a.state, Scene::Selection);
    press(&mut a, &[Key::Down, Key::Enter]);
    assert_eq!(a.state, Scene::Battle(0));
    assert_eq!(handle_input(&mut a, Key::Char('s')), Action::MarkTaskDone(11));
    assert!(a.monsters[0].is_slain);
    assert_eq!(a.slain_count, 1);
    assert_eq!(a.animation, Some(Animation::Slash { frame: 0 }));
    assert_eq!(handle_input(&mut a, Key::Char('s')), Action::Continue);
    assert_eq!(a.slain_count, 1);
    assert!(a.all_monsters_slain());
    assert!(a.is_quest_finished());
}

#[test]
fn slaying_a_wild_monster_asks_nothing() {
    let mut a = app();
    a.monsters_goal = 1;
    press(&mut a, &[Key::Enter, Key::Down, Key::Down, Key::Down, Key::Enter, Key::Char('O'), Key::Enter]);
    press(&mut a, &[Key::Down, Key::Down, Key::Enter, Key::Char('s'), Key::Enter]);
    assert_eq!(a.state, Scene::Battle(0));
    assert_eq!(handle_input(&mut a, Key::Char('s')), Action::Continue);
    assert!(a.monsters[0].is_slain);
}

#[test]
fn flee_pause_and_complete() {
    let mut a = marching();
    press(&mut a, &[Key::Char('c')]);
    assert_eq!(a.state, Scene::March);
    press(&mut a, &[Key::Char('p')]);
    assert!(a.is_paused);
    press(&mut a, &[Key::Char('P')]);
    assert!(!a.is_paused);
    press(&mut a, &[Key::Char('s'), Key::Enter, Key::Char('f')]);
    assert_eq!(a.state, Scene::March);
    press(&mut a, &[Key::Char('s'), Key::Esc]);
    assert_eq!(a.state, Scene::March);
    a.ticks = a.get_total_ticks();
    press(&mut a, &[Key::Char('c')]);
    assert_eq!(a.state, Scene::Summary);
    assert_eq!(handle_input(&mut a, Key::Char('x')), Action::Continue);
    assert_eq!(handle_input(&mut a, Key::Enter), Action::Quit);
    assert_eq!(handle_input(&mut a, Key::Esc), Action::Quit);
    assert_eq!(handle_input(&mut a, Key::Char('q')), Action::Quit);
}

#[test]
fn selection_without_monsters_is_refused() {
    let mut a = app();
    a.monsters_goal = 0;
    press(&mut a, &[Key::Enter, Key::Down, Key::Down, Key::Down, Key::Down, Key::Enter]);
    assert_eq!(a.state, Scene::March);
    assert!(a.monsters.is_empty());
    press(&mut a, &[Key::Char('s')]);
    assert_eq!(a.state, Scene::March);
}

#[test]
fn animation_ends_in_march() {
    let mut a = marching();
    press(&mut a, &[Key::Char('s'), Key::Enter, Key::Char('s')]);
    for _ in 0..13 {
        a.generate_row();
    }
    assert_eq!(a.state, Scene::March);
    assert!(a.animation.is_none());
}

#[test]
fn backspace_removes_the_last_character() {
    let mut a = app();
    press(&mut a, &[Key::Enter, Key::Down, Key::Down, Key::Down, Key::Enter]);
    press(&mut a, &[Key::Char('Ö'), Key::Char('g'), Key::Char('r'), Key::Backspace]);
    assert_eq!(a.naming_input, "Ög");
    press(&mut a, &[Key::Backspace, Key::Backspace, Key::Backspace]);
    assert_eq!(a.naming_input, "");
    press(&mut a, &[Key::Char('z')]);
    assert_eq!(a.naming_input, "z");
}

#[test]
fn q_is_typed_at_the_name_prompt() {
    let mut a = app();
    press(&mut a, &[Key::Enter, Key::Down, Key::Down, Key::Down, Key::Enter]);
    assert_eq!(handle_input(&mut a, Key::Char('q')), Action::Continue);
    assert_eq!(a.naming_input, "q");
    press(&mut a, &[Key::Esc]);
    assert_eq!(handle_input(&mut a, Key::Char('q')), Action::Quit);
    assert_eq!(handle_input(&mut a, Key::Esc), Action::Continue);
}
