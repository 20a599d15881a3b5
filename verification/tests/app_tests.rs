use std::collections::HashSet;
use venture::app::{App, Scene, TICK_RATE_MS};
use venture::dotdo::{active_tasks, Task};
use venture::map::WorldMap;
use venture::ui::{Animation, QuestStatus, StartStatus};

fn task(id: u32, title: &str, status: &str) -> Task {
    Task { id, title: title.to_string(), status: status.to_string(), due: String::new() }
}

fn small_map() -> WorldMap {
    WorldMap::new(9, 6, &vec![0; 6], &vec![])
}

fn app() -> App {
    App::new(vec![task(1, "Write report", "todo"), task(2, "Fix bug", "doing")], small_map())
}

#[test]
fn new_quest_defaults() {
    let a = app();
    assert_eq!(a.state, Scene::Setup);
    assert!(a.monsters.is_empty());
    assert_eq!(a.slain_count, 0);
    assert_eq!((a.hours, a.mins, a.monsters_goal), (1, 0, 3));
    assert_eq!(a.ticks, 0);
    assert_eq!(a.tick_rate_ms, TICK_RATE_MS);
    assert_eq!(a.tick_rate_ms, 250);
    assert_eq!(a.available_tasks.len(), 2);
    assert!(a.selected_indices.is_empty());
    assert!(a.custom_monsters.is_empty());
    assert_eq!(a.naming_input, "");
    assert!(a.animation.is_none());
    assert!(!a.is_paused);
}

#[test]
fn total_ticks_of_an_hour() {
    let a = app();
    assert_eq!(a.get_total_ticks(), 14400);
}

#[test]
fn total_ticks_with_minutes() {
    let mut a = app();
    a.mins = 5;
    assert_eq!(a.get_total_ticks(), 15600);
    a.hours = 0;
    a.mins = 0;
    assert_eq!(a.get_total_ticks(), 0);
    a.hours = 2;
    a.mins = 30;
    a.tick_rate_ms = 1000;
    assert_eq!(a.get_total_ticks(), 9000);
    a.tick_rate_ms = 0;
    assert_eq!(a.get_total_ticks(), u64::MAX);
    a.hours = 0;
    a.mins = 0;
    assert_eq!(a.get_total_ticks(), 0);
}

#[test]
fn goal_reached_at_total_ticks() {
    let mut a = app();
    assert!(!a.is_goal_reached());
    a.ticks = 14399;
    assert!(!a.is_goal_reached());
    a.ticks = 14400;
    assert!(a.is_goal_reached());
    assert!(a.is_quest_finished());
}

#[test]
fn time_left_as_clock() {
    let mut a = app();
    assert_eq!(a.get_time_left(), "01:00:00");
    a.ticks = 4;
    assert_eq!(a.get_time_left(), "00:59:59");
    a.ticks = 14399;
    assert_eq!(a.get_time_left(), "00:00:00");
    a.ticks = 14400;
    assert_eq!(a.get_time_left(), "00:00:00");
    a.ticks = 0;
    a.hours = 123;
    a.mins = 45;
    assert_eq!(a.get_time_left(), "123:45:00");
    a.hours = 0;
    a.mins = 10;
    a.ticks = 2;
    assert_eq!(a.get_time_left(), "00:09:59");
}

#[test]
fn knight_walks_the_trail_in_proportion() {
    let mut a = app();
    assert_eq!(a.map.path_steps.len(), 4);
    assert_eq!(a.get_knight_path_index(), 0);
    a.ticks = 7200;
    assert_eq!(a.get_knight_path_index(), 1);
    a.ticks = 9600;
    assert_eq!(a.get_knight_path_index(), 2);
    a.ticks = 14400;
    assert_eq!(a.get_knight_path_index(), 3);
    a.ticks = 99999;
    assert_eq!(a.get_knight_path_index(), 3);
    a.hours = 0;
    assert_eq!(a.get_knight_path_index(), 3);
}

#[test]
fn knight_at_the_castle_for_a_goal_of_no_time() {
    let mut a = app();
    a.hours = 0;
    a.mins = 0;
    assert!(a.is_goal_reached());
    assert_eq!(a.get_knight_path_index(), a.map.path_steps.len() - 1);
    a.ticks = 5;
    assert_eq!(a.get_knight_path_index(), 3);
}

#[test]
fn march_ticks_up_to_the_goal_then_stops() {
    let mut a = app();
    a.hours = 0;
    a.mins = 1;
    a.state = Scene::March;
    let total = a.get_total_ticks();
    assert_eq!(total, 240);
    for k in 0..total {
        assert_eq!(a.ticks, k);
        assert!(!a.is_goal_reached());
        a.generate_row();
    }
    assert_eq!(a.ticks, total);
    assert!(a.is_goal_reached());
    assert_eq!(a.get_knight_path_index(), 3);
    for _ in 0..10 {
        a.generate_row();
    }
    assert_eq!(a.ticks, total);
}

#[test]
fn ticks_advance_only_while_marching() {
    let mut a = app();
    a.generate_row();
    assert_eq!(a.ticks, 0);
    a.state = Scene::March;
    a.generate_row();
    a.generate_row();
    assert_eq!(a.ticks, 2);
    a.is_paused = true;
    a.generate_row();
    assert_eq!(a.ticks, 2);
    a.is_paused = false;
    a.state = Scene::Selection;
    a.generate_row();
    assert_eq!(a.ticks, 2);
}

#[test]
fn march_stops_at_the_castle() {
    let mut a = app();
    a.state = Scene::March;
    a.ticks = 14399;
    a.generate_row();
    assert_eq!(a.ticks, 14400);
    a.generate_row();
    assert_eq!(a.ticks, 14400);
}

#[test]
fn slash_animation_runs_thirteen_frames_then_returns_to_march() {
    let mut a = app();
    a.state = Scene::Battle(0);
    a.animation = Some(Animation::Slash { frame: 0 });
    for f in 1..=12usize {
        a.generate_row();
        assert_eq!(a.animation, Some(Animation::Slash { frame: f }));
        assert_eq!(a.state, Scene::Battle(0));
    }
    a.generate_row();
    assert!(a.animation.is_none());
    assert_eq!(a.state, Scene::March);
    assert_eq!(a.ticks, 0);
}

#[test]
fn no_monsters_means_not_all_slain() {
    let a = app();
    assert!(!a.all_monsters_slain());
    assert!(!a.is_quest_finished());
}

#[test]
fn active_tasks_keeps_todo_and_doing() {
    let tasks = vec![
        task(1, "a", "todo"),
        task(2, "b", "done"),
        task(3, "c", "doing"),
        task(4, "d", "Todo"),
        task(5, "e", "todo"),
    ];
    let active = active_tasks(&tasks);
    let ids: Vec<u32> = active.iter().map(|t| t.id).collect();
    assert_eq!(ids, vec![1, 3, 5]);
    assert_eq!(active[1].title, "c");
    assert!(active_tasks(&vec![]).is_empty());
}

#[test]
fn start_button_status() {
    let mut a = app();
    assert_eq!(a.start_status(), StartStatus::NeedMore(3));
    a.selected_indices = HashSet::from([0, 1]);
    assert_eq!(a.start_status(), StartStatus::NeedMore(1));
    a.custom_monsters.push("Dragon".to_string());
    assert_eq!(a.start_status(), StartStatus::Ready);
    a.custom_monsters.push("Wolf".to_string());
    assert_eq!(a.start_status(), StartStatus::TooMany(4));
}

#[test]
fn footer_status() {
    let mut a = app();
    assert_eq!(a.quest_status(), QuestStatus::Marching);
    a.ticks = 14400;
    assert_eq!(a.quest_status(), QuestStatus::CastleReached);
}
