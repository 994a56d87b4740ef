use arq::item_list_selection::{ItemListSelection, ListSelection};
use arq::items::Item;

fn build_item_series_4() -> Vec<Item> {
    let item = Item::with_defaults("Test Item 1".to_owned(),  1000, 1);
    let item2 = Item::with_defaults( "Test Item 2".to_owned(), 1000, 1);
    let item3 = Item::with_defaults("Test Item 3".to_owned(),  1000, 1);
    let item4 = Item::with_defaults("Test Item 4".to_owned(), 1000, 1);
    let items = vec! [ item.clone(), item2.clone(), item3.clone(), item4.clone() ];
    items
}

fn build_item_series_8() -> Vec<Item> {
    let item1 = Item::with_defaults("Test Item 1".to_owned(),  1000, 1);
    let item2 = Item::with_defaults("Test Item 2".to_owned(),  1000, 1);
    let item3 = Item::with_defaults("Test Item 3".to_owned(), 1000, 1);
    let item4 = Item::with_defaults("Test Item 4".to_owned(), 1000, 1);
    let item5 = Item::with_defaults("Test Item 5".to_owned(),  1000, 1);
    let item6 = Item::with_defaults("Test Item 6".to_owned(),  1000, 1);
    let item7 = Item::with_defaults("Test Item 7".to_owned(),  1000, 1);
    let item8 = Item::with_defaults("Test Item 8".to_owned(),  1000, 1);
    vec! [ item1.clone(), item2.clone(), item3.clone(), item4.clone(), item5.clone(), item6.clone(), item7.clone(), item8.clone()  ]
}

#[test]
fn test_item_list_selection_new(){
    // GIVEN a series of items to select from            let test_item = Item::with_defaults(format!("Test Item {}", i), 1, 100);
    let items = build_item_series_4();

    // WHEN we call to build a list selection of these items
    let list_selection = ItemListSelection::new(items.clone(), 4);
    assert_eq!(1, list_selection.get_page_number());
    assert_eq!(1, list_selection.get_total_pages());

    // THEN we expect it to wrap the items provided
    let wrapped_items = list_selection.get_items();
    assert_eq!(4, wrapped_items.len());
    assert_eq!(items[0], wrapped_items[0]);
    assert_eq!(items[1], wrapped_items[1]);
    assert_eq!(items[2], wrapped_items[2]);
    assert_eq!(items[3], wrapped_items[3]);

    // AND have no currently selected items
    let selected_items = list_selection.get_selected_items();
    assert_eq!(0, selected_items.len());
}

#[test]
fn test_multi_page_count() {
    // GIVEN a series of items to select from
    let item = Item::with_defaults("Test Item 1".to_owned(),  1000, 1);
    let item2 = Item::with_defaults( "Test Item 2".to_owned(), 1000, 1);
    let item3 = Item::with_defaults("Test Item 3".to_owned(),  1000, 1);
    let item4 = Item::with_defaults("Test Item 4".to_owned(), 1000, 1);
    let items = vec! [ item.clone(), item2.clone(), item3.clone(), item4.clone() ];

    // WHEN we call to build a list selection of these items with a line count of 2 items per page
    let list_selection = ItemListSelection::new(items.clone(), 2);
    // THEN we expect there to be 2 pages
    assert_eq!(1, list_selection.get_page_number());
    assert_eq!(2, list_selection.get_total_pages());
}

#[test]
fn test_multi_page_count_odd() {
    // GIVEN a series of 60 items to select from
    let mut items = Vec::new();
    for _i in 1..=60 {
        let item = Item::with_defaults("Test Item 1".to_owned(),  1000, 1);
        items.push(item);
    }

    // WHEN we call to build a list selection of these items
    // with a line count of 36 items per page (Which would give us an odd page count of 1.69)
    let list_selection = ItemListSelection::new(items.clone(), 36);
    // THEN we expect there to be 2 pages total
    assert_eq!(1, list_selection.get_page_number());
    assert_eq!(2, list_selection.get_total_pages());
}

#[test]
fn test_move_up() {
    // GIVEN a selection with a series of items to select from
    let items = build_item_series_4();

    let mut list_selection = ItemListSelection::new(items.clone(), 4);

    // AND an initial container index of 2
    list_selection.set_current_index(2);

    // WHEN we call to move up
    list_selection.move_up();

    // THEN we expect the container index to be 1 (2nd item)
    assert_eq!(1, list_selection.get_current_index());
    // AND we should have no currently selected items
    let selected_items = list_selection.get_selected_items();
    assert_eq!(0, selected_items.len());
}

#[test]
fn test_move_down_up_of_list() {
    // GIVEN a selection with a series of items to select from
    let items = build_item_series_4();
    let mut list_selection = ItemListSelection::new(items.clone(), 4);
    // AND an initial container index of 3
    list_selection.set_current_index(3);

    // WHEN we move up 3 times
    list_selection.move_up();
    list_selection.move_up();
    list_selection.move_up();

    // THEN we expect the container index to be 0 (1st item)
    assert_eq!(0, list_selection.get_current_index());
    // AND we should have no currently selected items
    let selected_items = list_selection.get_selected_items();
    assert_eq!(0, selected_items.len());
}

#[test]
fn test_move_down() {
    // GIVEN a selection with a series of items to select from
    let items = build_item_series_4();
    let mut list_selection = ItemListSelection::new(items.clone(), 4);
    list_selection.set_current_index(0);

    // WHEN we call to move down
    list_selection.move_down();

    // THEN we expect the current index to be 1 (2nd item)
    assert_eq!(1, list_selection.get_current_index());
    // AND we should have no currently selected items
    let selected_items = list_selection.get_selected_items();
    assert_eq!(0, selected_items.len());
}

#[test]
fn test_move_down_end_of_list() {
    // GIVEN a selection with a series of items to select from
    let items = build_item_series_4();
    let mut list_selection = ItemListSelection::new(items.clone(), 4);
    list_selection.set_current_index(0);

    // WHEN we move down 3 times
    list_selection.move_down();
    list_selection.move_down();
    list_selection.move_down();

    // THEN we expect the container index to be 3 (4th item)
    assert_eq!(3, list_selection.get_current_index());
    // AND we should have no currently selected items
    let selected_items = list_selection.get_selected_items();
    assert_eq!(0, selected_items.len());
}

#[test]
fn test_toggle_selection() {
    // GIVEN a list selection
    let mut list_selection = ItemListSelection::new(Vec::new(), 0);
    // AND it's currently not selecting anything
    assert!(!list_selection.is_selecting());
    // WHEN we call to toggle selection
    list_selection.toggle_select();
    // THEN it will flip the is selecting state
    assert!(list_selection.is_selecting());
    // AND the opposite
    list_selection.toggle_select();
    assert!(!list_selection.is_selecting());
}

#[test]
fn test_index_select() {
    // GIVEN a series of items to select from
    let items = build_item_series_4();

    // AND a valid list selection
    let mut list_selection = ItemListSelection::new(items.clone(), 4);

    // WHEN we call to select a particular index
    list_selection.select(1);

    // THEN we expect it to be returned
    assert!(list_selection.is_selected(1));
    let selected_items = list_selection.get_selected_items();
    assert_eq!(1, selected_items.len());
    assert_eq!(items[1], selected_items[0]);
}

#[test]
fn test_selecting_above() {
    // GIVEN a series of items to select from
    let items = build_item_series_4();

    // AND a valid list selection
    let mut list_selection = ItemListSelection::new(items.clone(), 4);

    // AND we've begun by selecting an index  and ensuring we're selecting items
    list_selection.set_initial_selection(1);
    // WHEN we call to move up the selection
    list_selection.move_up();

    // THEN we expect multiple items/indices to be returned
    assert_eq!(true, list_selection.is_selecting());
    assert_eq!(true, list_selection.is_selected(0));
    assert_eq!(true, list_selection.is_selected(1));
    let selected_items = list_selection.get_selected_items();
    assert_eq!(2, selected_items.len());
    assert_eq!(items[0], selected_items[0]);
    assert_eq!(items[1], selected_items[1]);
}

#[test]
fn test_selecting_above_multi() {
    // GIVEN a series of items to select from
    let items = build_item_series_4();

    // AND a valid list selection
    let mut list_selection = ItemListSelection::new(items.clone(), 4);

    // AND we've begun by selecting an index  and ensuring we're selecting items
    list_selection.set_initial_selection(2);
    // WHEN we call to move up the selection multiple times
    list_selection.move_up();
    list_selection.move_up();

    // THEN we expect multiple items/indices to be returned
    assert_eq!(true, list_selection.is_selecting());
    assert_eq!(true, list_selection.is_selected(0));
    assert_eq!(true, list_selection.is_selected(1));
    assert_eq!(true, list_selection.is_selected(2));
    let selected_items = list_selection.get_selected_items();
    assert_eq!(3, selected_items.len());
    assert_eq!(items[0], selected_items[0]);
    assert_eq!(items[1], selected_items[1]);
    assert_eq!(items[2], selected_items[2]);
}

#[test]
fn test_reducing_selection_above() {
    // GIVEN a series of items to select from
    let items = build_item_series_4();

    // AND a valid list selection
    let mut list_selection = ItemListSelection::new(items.clone(), 4);

    // AND we've begun by selecting an index (the pivot point)
    // AND then selecting above that twice
    list_selection.set_initial_selection(2);
    list_selection.move_up();
    list_selection.move_up();

    assert_eq!(true, list_selection.is_selecting());
    assert_eq!(true, list_selection.is_selected(0));
    assert_eq!(true, list_selection.is_selected(1));
    assert_eq!(true, list_selection.is_selected(2));
    let selected_items = list_selection.get_selected_items();
    assert_eq!(3, selected_items.len());

    // WHEN we call to select down
    list_selection.move_down();

    // THEN we expect the selection to decrease towards the initial selection/pivot point (2)
    assert_eq!(true, list_selection.is_selecting());
    assert_eq!(true, list_selection.is_selected(1));
    assert_eq!(true, list_selection.is_selected(2));
    let selected_items = list_selection.get_selected_items();
    assert_eq!(2, selected_items.len());
    assert_eq!(items[1], selected_items[0]);
    assert_eq!(items[2], selected_items[1]);
}

#[test]
fn test_selecting_downwards() {
    // GIVEN a series of items to select from
    let items = build_item_series_4();

    // AND a valid list selection
    let mut list_selection = ItemListSelection::new(items.clone(), 4);

    // AND we've begun by selecting an index  and ensuring we're selecting items
    list_selection.set_initial_selection(1);
    // WHEN we call to move down the selection
    list_selection.move_down();

    // THEN we expect multiple items/indices to be returned
    assert_eq!(true, list_selection.is_selecting());
    assert_eq!(true, list_selection.is_selected(1));
    assert_eq!(true, list_selection.is_selected(2));
    let selected_items = list_selection.get_selected_items();
    assert_eq!(2, selected_items.len());
    assert_eq!(items[1], selected_items[0]);
    assert_eq!(items[2], selected_items[1]);
}

#[test]
fn test_selecting_downwards_multi() {
    // GIVEN a series of items to select from
    let items = build_item_series_4();

    // AND a valid list selection
    let mut list_selection = ItemListSelection::new(items.clone(), 4);

    // AND we've begun by selecting an index  and ensuring we're selecting items
    list_selection.set_initial_selection(1);
    // WHEN we call to move down the selection multiple times
    list_selection.move_down();
    list_selection.move_down();

    // THEN we expect multiple items/indices to be returned
    assert_eq!(true, list_selection.is_selecting());
    assert_eq!(true, list_selection.is_selected(1));
    assert_eq!(true, list_selection.is_selected(2));
    assert_eq!(true, list_selection.is_selected(3));
    let selected_items = list_selection.get_selected_items();
    assert_eq!(3, selected_items.len());
    assert_eq!(items[1], selected_items[0]);
    assert_eq!(items[2], selected_items[1]);
    assert_eq!(items[3], selected_items[2]);
}

#[test]
fn test_reducing_selection_below_all_selected() {
    // GIVEN a series of items to select from
    let items = build_item_series_4();

    // AND a valid list selection
    let mut list_selection = ItemListSelection::new(items.clone(), 4);

    // AND we've begun by selecting the first item in the container
    // AND then selecting below that until we reach the bottom of the container
    list_selection.set_initial_selection(0);
    list_selection.move_down();
    list_selection.move_down();
    list_selection.move_down();

    assert_eq!(true, list_selection.is_selecting());
    assert_eq!(true, list_selection.is_selected(0));
    assert_eq!(true, list_selection.is_selected(1));
    assert_eq!(true, list_selection.is_selected(2));
    assert_eq!(true, list_selection.is_selected(3));
    let selected_items = list_selection.get_selected_items();
    assert_eq!(4, selected_items.len());

    // WHEN we call to select up
    list_selection.move_up();

    // THEN we expect the selection to decrease towards the initial selection/pivot point
    assert_eq!(true, list_selection.is_selecting());
    assert_eq!(true, list_selection.is_selected(0));
    assert_eq!(true, list_selection.is_selected(1));
    assert_eq!(true, list_selection.is_selected(2));
    let selected_items = list_selection.get_selected_items();
    assert_eq!(3, selected_items.len());
    assert_eq!(items[0], selected_items[0]);
    assert_eq!(items[1], selected_items[1]);
    assert_eq!(items[2], selected_items[2]);
}

#[test]
fn test_reducing_selection_below() {
    // GIVEN a series of items to select from
    let items = build_item_series_4();

    // AND a valid list selection
    let mut list_selection = ItemListSelection::new(items.clone(), 4);

    // AND we've begun by selecting an index (the pivot point)
    // AND then selecting below that twice
    list_selection.set_initial_selection(1);
    list_selection.move_down();
    list_selection.move_down();

    assert_eq!(true, list_selection.is_selecting());
    assert_eq!(true, list_selection.is_selected(1));
    assert_eq!(true, list_selection.is_selected(2));
    assert_eq!(true, list_selection.is_selected(3));
    let selected_items = list_selection.get_selected_items();
    assert_eq!(3, selected_items.len());

    // WHEN we call to select up
    list_selection.move_up();

    // THEN we expect the selection to decrease towards the initial selection/pivot point
    assert_eq!(true, list_selection.is_selecting());
    assert_eq!(true, list_selection.is_selected(1));
    assert_eq!(true, list_selection.is_selected(2));
    let selected_items = list_selection.get_selected_items();
    assert_eq!(2, selected_items.len());
    assert_eq!(items[1], selected_items[0]);
    assert_eq!(items[2], selected_items[1]);
}

#[test]
fn test_page_down_same_page() {
    // GIVEN a series of items to select from
    let items = build_item_series_4();

    // AND a valid list selection that has a line count matching our items
    let mut list_selection = ItemListSelection::new(items.clone(), 4);

    // AND we've begun by selecting an index  and ensuring we're selecting items
    list_selection.set_initial_selection(1);
    // WHEN we call to go down a page
    list_selection.page_down();

    // THEN we expect everything below this point to be selected
    assert_eq!(true, list_selection.is_selecting());
    assert_eq!(true, list_selection.is_selected(1));
    assert_eq!(true, list_selection.is_selected(2));
    assert_eq!(true, list_selection.is_selected(3));

    // AND the start index remains unchanged
    assert_eq!(0, list_selection.get_start_index());

    let selected_items = list_selection.get_selected_items();
    assert_eq!(3, selected_items.len());
    assert_eq!(items[1], selected_items[0]);
    assert_eq!(items[2], selected_items[1]);
    assert_eq!(items[3], selected_items[2]);
}

#[test]
fn test_page_down_multi_page_same_page() {
    // GIVEN a series of items to select from
    let items = build_item_series_8();

    // AND a valid list selection that has a line count that fits half of these items
    let mut list_selection = ItemListSelection::new(items.clone(), 4);

    // AND we've begun by selecting an index  and ensuring we're selecting items
    list_selection.set_initial_selection(1);
    // WHEN we call to go down a page
    list_selection.page_down();

    // THEN we expect everything below this point to be selected
    // up to the end of the page
    assert_eq!(true, list_selection.is_selecting());
    assert_eq!(true, list_selection.is_selected(1));
    assert_eq!(true, list_selection.is_selected(2));
    assert_eq!(true, list_selection.is_selected(3));

    // AND the start index remains unchanged
    assert_eq!(0, list_selection.get_start_index());

    let selected_items = list_selection.get_selected_items();
    assert_eq!(3, selected_items.len());
    assert_eq!(items[1], selected_items[0]);
    assert_eq!(items[2], selected_items[1]);
    assert_eq!(items[3], selected_items[2]);
}

#[test]
fn test_page_down_multi_page_next_page() {
    // GIVEN a series of items to select from
    let items = build_item_series_8();

    // AND a valid list selection that has a line count that fits half of these items
    let mut list_selection = ItemListSelection::new(items.clone(), 4);

    // AND we've begun by selecting an index
    list_selection.set_initial_selection(1);
    // AND paging down to the end of the page
    list_selection.page_down();

    // WHEN we call to page down again
    list_selection.page_down();

    // THEN we expect the selection to turn the page
    // and select the first item on the next page
    assert_eq!(true, list_selection.is_selecting());
    assert_eq!(4, list_selection.get_selected_count());
    assert_eq!(true, list_selection.is_selected(1));
    assert_eq!(true, list_selection.is_selected(2));
    assert_eq!(true, list_selection.is_selected(3));
    // 4 items per page so index 4 is the first item on the 2nd page
    assert_eq!(true, list_selection.is_selected(4));
    // AND the start index will be the next page start index
    assert_eq!(4, list_selection.get_start_index());

    // AND the items themselves will also be selected
    let selected_items = list_selection.get_selected_items();
    assert_eq!(4, selected_items.len());
    assert_eq!(items[1], selected_items[0]);
    assert_eq!(items[2], selected_items[1]);
    assert_eq!(items[3], selected_items[2]);
    assert_eq!(items[4], selected_items[3]);
}

#[test]
fn test_page_up_multi_page_same_page() {
    // GIVEN a series of items to select from
    let items = build_item_series_8();

    // AND a valid list selection that has a line count that fits half of these items
    let mut list_selection = ItemListSelection::new(items.clone(), 4);

    // AND we've begun by navigating to the correct index and initialising selection
    list_selection.page_down();  // end of first page
    list_selection.page_down();  // 2nd page
    list_selection.set_initial_selection(2); // 3rd item of 2nd page
    assert_eq!(4, list_selection.get_start_index());

    // WHEN we call to go up a page
    list_selection.page_up();

    // THEN we expect everything from the top of the page to the original point to be selected
    assert_eq!(true, list_selection.is_selecting());
    // Items 5,6, and 7
    assert_eq!(true, list_selection.is_selected(4));
    assert_eq!(true, list_selection.is_selected(5));
    assert_eq!(true, list_selection.is_selected(6));

    // AND the start index remains unchanged
    assert_eq!(4, list_selection.get_start_index());

    let selected_items = list_selection.get_selected_items();
    assert_eq!(3, selected_items.len());
    assert_eq!(items[4], selected_items[0]);
    assert_eq!(items[5], selected_items[1]);
    assert_eq!(items[6], selected_items[2]);
}

#[test]
fn test_page_up_multi_page_previous_page() {
    // GIVEN a series of items to select from
    let items = build_item_series_8();

    // AND a valid list selection that has a line count that fits half of these items
    let mut list_selection = ItemListSelection::new(items.clone(), 4);

    // AND we've begun by navigating to the correct index and initialising selection
    list_selection.page_down();  // end of first page
    list_selection.page_down();  // 2nd page
    list_selection.set_initial_selection(2); // 3rd item of 2nd page
    assert_eq!(4, list_selection.get_start_index());

    // WHEN we call to go up a page twice
    list_selection.page_up();
    list_selection.page_up();

    // THEN we expect the selection to turn back the page and select the last item on the previous page
    assert_eq!(true, list_selection.is_selecting());
    assert_eq!(true, list_selection.is_selected(3));
    assert_eq!(true, list_selection.is_selected(4));
    assert_eq!(true, list_selection.is_selected(5));
    assert_eq!(true, list_selection.is_selected(6));

    // AND the start index is now the start of the previous page
    assert_eq!(0, list_selection.get_start_index());

    // AND our selection is the last item of page 1 and the first 3 items of page 2
    let selected_items = list_selection.get_selected_items();
    assert_eq!(4, selected_items.len());
    assert_eq!(items[3], selected_items[0]);
    assert_eq!(items[4], selected_items[1]);
    assert_eq!(items[5], selected_items[2]);
    assert_eq!(items[6], selected_items[3]);
}


#[test]
fn test_select_second_page() {
    // GIVEN a series of items to select from
    let items = build_item_series_8();

    // AND a valid list selection that has a line count that fits half of these items
    let mut list_selection = ItemListSelection::new(items.clone(), 4);

    // AND we've moved to the 2nd page of the view
    list_selection.page_down();  // end of first page
    list_selection.page_down();  // 2nd page

    // WHEN we move down and select an item
    list_selection.move_down();
    list_selection.move_down();
    list_selection.move_down();
    list_selection.toggle_select();

    // THEN we expect only that item to be selected
    assert_eq!(4, list_selection.get_start_index());
    assert_eq!(3, list_selection.get_current_index());
    assert_eq!(7, list_selection.get_true_index());
    let selected_items = list_selection.get_selected_items();
    assert_eq!(1, selected_items.len());
    assert_eq!(true, list_selection.is_selected(7));

    // AND we're in the selection mode
    assert_eq!(true, list_selection.is_selecting());
}

#[test]
fn test_downward_multi_select_second_page() {
    // GIVEN a series of items to select from
    let items = build_item_series_8();

    // AND a valid list selection that has a line count that fits half of these items
    let mut list_selection = ItemListSelection::new(items.clone(), 4);

    // AND we've moved to the 2nd page of the view
    list_selection.page_down();  // end of first page
    list_selection.page_down();  // 2nd page

    // WHEN we move down and select a range of items
    list_selection.move_down();
    list_selection.toggle_select(); // Item 5
    list_selection.move_down(); // Item 6

    // THEN we expect only these items to be selected
    assert_eq!(4, list_selection.get_start_index());
    assert_eq!(2, list_selection.get_current_index());
    let selected_items = list_selection.get_selected_items();
    assert_eq!(2, selected_items.len());
    assert_eq!(true, list_selection.is_selected(5));
    assert_eq!(true, list_selection.is_selected(6));

    // AND we're in the selection mode
    assert_eq!(true, list_selection.is_selecting());
}

#[test]
fn test_cancel_selection_clears_everything() {
    let items = build_item_series_4();
    let mut list_selection = ItemListSelection::new(items.clone(), 4);
    list_selection.set_initial_selection(1);
    list_selection.move_down();
    assert_eq!(2, list_selection.get_selected_count());

    list_selection.cancel_selection();

    assert!(!list_selection.is_selecting());
    assert_eq!(0, list_selection.get_selected_items().len());
    assert!(!list_selection.is_selected(1));
    assert!(!list_selection.is_selected(2));
}

#[test]
fn test_select_then_deselect_restores_selection() {
    let items = build_item_series_4();
    let mut list_selection = ItemListSelection::new(items.clone(), 4);
    list_selection.select(1);
    list_selection.select(3);
    let before = list_selection.get_selected_items();

    list_selection.select(2);
    assert_eq!(3, list_selection.get_selected_count());
    list_selection.deselect(2);

    assert_eq!(before, list_selection.get_selected_items());
    assert!(!list_selection.is_selected(2));
}

#[test]
fn test_moving_without_selecting_selects_nothing() {
    let items = build_item_series_8();
    let mut list_selection = ItemListSelection::new(items.clone(), 3);
    list_selection.move_down();
    list_selection.page_down();
    list_selection.page_down();
    list_selection.move_up();
    list_selection.page_up();

    assert!(!list_selection.is_selecting());
    assert_eq!(0, list_selection.get_selected_count());
    // The focused position is the first line of the page plus the focused line
    assert_eq!(list_selection.get_start_index() + list_selection.get_current_index(), list_selection.get_true_index());
}

#[test]
fn test_total_pages_rounds_up() {
    let items = build_item_series_8();
    assert_eq!(3, ItemListSelection::new(items.clone(), 3).get_total_pages());
    assert_eq!(2, ItemListSelection::new(items.clone(), 4).get_total_pages());
    assert_eq!(1, ItemListSelection::new(items.clone(), 9).get_total_pages());
    assert_eq!(0, ItemListSelection::new(Vec::new(), 4).get_total_pages());
    // Without lines on a page the items fill unboundedly many pages
    assert_eq!(i32::MAX, ItemListSelection::new(items.clone(), 0).get_total_pages());
}

#[test]
fn test_end_of_page_and_focus() {
    let items = build_item_series_8();
    let mut list_selection = ItemListSelection::new(items.clone(), 3);
    assert_eq!(2, list_selection.get_end_of_page_index());
    assert_eq!(2, list_selection.determine_max_selection_index());
    assert!(list_selection.is_focused(0));
    assert!(!list_selection.is_focused(1));
    assert_eq!(Some(&items[0]), list_selection.get_focused_item());
    list_selection.page_down();
    assert_eq!(2, list_selection.get_current_index());
    assert_eq!(Some(&items[2]), list_selection.get_focused_item());
    assert_eq!(None, list_selection.get_container_index());
}

#[test]
fn test_toggle_select_pivots_at_focus() {
    let items = build_item_series_4();
    let mut list_selection = ItemListSelection::new(items.clone(), 4);
    list_selection.move_down();
    list_selection.move_down();
    list_selection.toggle_select();
    assert!(list_selection.is_selected(2));
    assert_eq!(Some(2), list_selection.get_container_index());
    list_selection.move_up();
    assert!(list_selection.is_selected(1));
    assert!(list_selection.is_selected(2));
    assert_eq!(items[1], list_selection.get_selected_items()[0]);
}
