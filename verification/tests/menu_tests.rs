use arq::input::{enter_key, Key};
use arq::menu::{build_start_menu, Menu};
use arq::option_list_selection::{MappedOption, OptionListSelection};
use arq::progress::{MultiStepProgress, Step};

fn build_test_menu() -> Menu {
    let titles = vec!["A".to_owned(), "B".to_owned(), "C".to_owned()];
    Menu { menu_titles: titles, highlight_text: None, selection: 0, selected: false, exit: false }
}

#[test]
fn test_menu_select_up() {
    // GIVEN a menu of 3 choices
    let mut menu = build_test_menu();
    // AND the initial selection is index 1
    menu.selection = 1;

    // WHEN we call to select_up
    menu.select_up();

    // THEN we expect the selection to be at the lowest index
    assert_eq!(0, menu.selection);
}

#[test]
fn test_menu_select_up_upper_bound() {
    // GIVEN a menu of 3 choices
    let mut menu = build_test_menu();
    // AND the initial selection is index 0
    assert_eq!(0, menu.selection);

    // WHEN we call to select_up
    menu.select_up();

    // THEN we expect the selection to remain unchanged
    assert_eq!(0, menu.selection);
}

#[test]
fn test_menu_select_down() {
    // GIVEN a menu of 3 choices
    let mut menu = build_test_menu();
    // AND the initial selection is index 0
    assert_eq!(0, menu.selection);

    // WHEN we call to select_down
    menu.select_down();

    // THEN we expect the selection to increment by 1
    assert_eq!(1, menu.selection);
}

#[test]
fn test_menu_select_down_lower_bound() {
    // GIVEN a menu of 3 choices
    let mut menu = build_test_menu();
    // AND the initial selection is index 0
    assert_eq!(0, menu.selection);

    // WHEN we call to select_down
    for _ in 0..3 {
        menu.select_down();
    }

    // THEN we expect the selection to be at the lowest possible index of 2
    assert_eq!(2, menu.selection);
}

#[test]
fn menu_keys_move_and_confirm() {
    let mut menu = build_test_menu();
    menu.handle_input(Key::Down);
    assert_eq!(1, menu.selection);
    assert!(!menu.selected);
    menu.handle_input(Key::Up);
    assert_eq!(0, menu.selection);
    menu.handle_input(enter_key());
    assert!(menu.selected);
    menu.handle_input(Key::Char('x'));
    assert!(!menu.selected);
    assert_eq!(0, menu.selection);
    menu.handle_input(Key::Right);
    assert!(menu.selected);
    menu.handle_input(Key::Esc);
    assert!(!menu.selected);
    assert!(!menu.exit);
}

#[test]
fn start_menu_titles() {
    let menu = build_start_menu(false);
    assert_eq!(vec!["Play", "Settings", "Info", "Quit"], menu.menu_titles);
    assert_eq!(Some("-> ".to_owned()), menu.highlight_text);
    assert_eq!(0, menu.selection);
    let resumed = build_start_menu(true);
    assert_eq!("Resume", resumed.menu_titles[0]);
}

fn steps(n: usize) -> Vec<Step> {
    (0..n).map(|i| Step { id: format!("step{}", i), description: format!("Step {}", i) }).collect()
}

#[test]
fn progress_moves_to_the_last_step_and_stops() {
    let mut progress = MultiStepProgress::for_steps_not_started(steps(3));
    assert_eq!(1, progress.get_current_step_number());
    assert_eq!("step0", progress.get_current_step_value().unwrap().id);
    assert!(!progress.is_done());
    assert_eq!(33, progress.get_progress_percentage());
    progress.next_step();
    assert_eq!(2, progress.get_current_step_number());
    assert_eq!(66, progress.get_progress_percentage());
    progress.next_step();
    assert!(progress.is_done());
    assert_eq!(99, progress.get_progress_percentage());
    progress.next_step();
    assert_eq!(3, progress.get_current_step_number());
    assert!(progress.is_done());
    assert_eq!(3, progress.step_count());
    assert_eq!(3, progress.steps().len());
}

#[test]
fn progress_without_steps_has_no_current_step() {
    let mut progress = MultiStepProgress::for_steps_not_started(Vec::new());
    assert!(progress.get_current_step_value().is_none());
    progress.next_step();
    assert_eq!(1, progress.get_current_step_number());
}

#[test]
fn option_list_moves_within_and_one_past_the_options() {
    let mut list: OptionListSelection<u8> = OptionListSelection::new();
    assert!(list.get_chosen().is_none());
    list.options.push(MappedOption { mapped: 1, name: "One".to_owned(), size: 3 });
    list.options.push(MappedOption { mapped: 2, name: "Two".to_owned(), size: 3 });
    assert_eq!(1, list.get_chosen().unwrap().mapped);
    list.move_up();
    assert_eq!(0, list.index);
    list.move_down();
    assert_eq!(2, list.get_chosen().unwrap().mapped);
    list.move_down();
    assert_eq!(2, list.index);
    assert!(list.get_chosen().is_none());
    list.move_down();
    assert_eq!(2, list.index);
}
