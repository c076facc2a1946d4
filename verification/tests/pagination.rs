use yew_data_grid::hooks::pagination::{get_page_view, Pagination};

fn ids(n: usize) -> Vec<String> {
    (0..n).map(|i| i.to_string()).collect()
}

fn on_page(total_rows: usize, page_size: i32, page: i32) -> Pagination {
    Pagination::new(total_rows, page_size).jump_to(page)
}

#[test]
fn test_get_pagination() {
    let total_rows = 105;
    let page_size = 10;
    let p = Pagination::new(total_rows, page_size);
    assert_eq!(p.page, 1);
    assert_eq!(p.number_pages, 11);
    assert_eq!(p.page_size, 10);
}

#[test]
fn test_get_page_view() {
    let total_rows = 105;
    let page_size = 10;
    let p = Pagination::new(total_rows, page_size);
    let data_indexes = (0..total_rows).map(|i| i.to_string()).collect();
    let page_view = get_page_view(&p, &data_indexes);
    assert_eq!(page_view, vec!["0", "1", "2", "3", "4", "5", "6", "7", "8", "9"]);
}

#[test]
fn given_empty_list_get_page_view() {
    let total_rows = 0;
    let page_size = 10;
    let p = Pagination::new(total_rows, page_size);
    let data_indexes: Vec<String> = vec![];
    let page_view = get_page_view(&p, &data_indexes);
    assert_eq!(page_view.len(), 0);
}

#[test]
fn page_count_rounds_up() {
    assert_eq!(Pagination::new(105, 10).number_pages, 11);
    assert_eq!(Pagination::new(0, 10).number_pages, 0);
    assert_eq!(Pagination::new(10, 10).number_pages, 1);
    assert_eq!(Pagination::new(11, 10).number_pages, 2);
    assert_eq!(Pagination::new(9, 10).number_pages, 1);
    assert_eq!(Pagination::new(7, 1).number_pages, 7);
    assert_eq!(Pagination::new(1, i32::MAX).number_pages, 1);
}

#[test]
fn new_keeps_its_arguments_and_starts_on_page_one() {
    let p = Pagination::new(42, 5);
    assert_eq!(p, Pagination { page: 1, number_pages: 9, page_size: 5, total_rows: 42 });
}

#[test]
fn page_count_stops_at_the_largest_number() {
    let p = Pagination::new(usize::MAX, 1);
    assert_eq!(p.number_pages, i32::MAX);
    assert_eq!(p.total_rows, usize::MAX);
    let q = Pagination::new(i32::MAX as usize, 1);
    assert_eq!(q.number_pages, i32::MAX);
    let r = Pagination::new(i32::MAX as usize + 1, 2);
    assert_eq!(r.number_pages, 1 << 30);
}

#[test]
fn last_page_holds_the_remainder() {
    let data_indexes = ids(105);
    let page_view = get_page_view(&on_page(105, 10, 11), &data_indexes);
    assert_eq!(page_view, vec!["100", "101", "102", "103", "104"]);
}

#[test]
fn inner_page_is_full() {
    let data_indexes = ids(105);
    let page_view = get_page_view(&on_page(105, 10, 3), &data_indexes);
    assert_eq!(page_view, vec!["20", "21", "22", "23", "24", "25", "26", "27", "28", "29"]);
}

#[test]
fn exact_multiple_fills_its_last_page() {
    let data_indexes = ids(20);
    let page_view = get_page_view(&on_page(20, 10, 2), &data_indexes);
    assert_eq!(page_view.len(), 10);
    assert_eq!(page_view[0], "10");
    assert_eq!(page_view[9], "19");
}

#[test]
fn empty_order_shows_nothing_on_any_page() {
    let data_indexes: Vec<String> = vec![];
    for page in [i32::MIN, -3, 0, 1, 2, 11, i32::MAX] {
        for page_size in [i32::MIN, -1, 0, 1, 10, i32::MAX] {
            let p = Pagination { page, number_pages: 11, page_size, total_rows: 105 };
            assert_eq!(get_page_view(&p, &data_indexes).len(), 0);
        }
    }
}

#[test]
fn page_beyond_the_order_shows_nothing() {
    let data_indexes = ids(25);
    let p = Pagination { page: 4, number_pages: 3, page_size: 10, total_rows: 25 };
    assert_eq!(get_page_view(&p, &data_indexes).len(), 0);
    let far = Pagination { page: i32::MAX, number_pages: 3, page_size: i32::MAX, total_rows: 25 };
    assert_eq!(get_page_view(&far, &data_indexes).len(), 0);
}

#[test]
fn page_before_the_first_is_held_to_the_order() {
    let data_indexes = ids(25);
    let zero = Pagination { page: 0, number_pages: 3, page_size: 10, total_rows: 25 };
    assert_eq!(get_page_view(&zero, &data_indexes).len(), 0);
    let negative = Pagination { page: 1, number_pages: 3, page_size: -10, total_rows: 25 };
    assert_eq!(get_page_view(&negative, &data_indexes).len(), 0);
    // begins at 20 and ends ten rows before it: nothing lies between
    let both = Pagination { page: -1, number_pages: 3, page_size: -10, total_rows: 25 };
    assert_eq!(get_page_view(&both, &data_indexes).len(), 0);
}

#[test]
fn order_longer_than_the_row_count_is_sliced_by_the_page() {
    let data_indexes = ids(30);
    let p = Pagination { page: 2, number_pages: 1, page_size: 4, total_rows: 3 };
    assert_eq!(get_page_view(&p, &data_indexes), vec!["4", "5", "6", "7"]);
}

#[test]
fn increment_steps_and_stops_at_the_last_page() {
    let p = Pagination::new(105, 10);
    let second = p.increment();
    assert_eq!(second, Pagination { page: 2, number_pages: 11, page_size: 10, total_rows: 105 });
    let last = on_page(105, 10, 11);
    assert_eq!(last.page, 11);
    assert_eq!(last.increment(), last);
}

#[test]
fn decrement_steps_and_stops_at_the_first_page() {
    let p = on_page(105, 10, 5);
    assert_eq!(p.decrement().page, 4);
    assert_eq!(p.decrement().number_pages, 11);
    let first = Pagination::new(105, 10);
    assert_eq!(first.decrement(), first);
}

#[test]
fn jump_is_held_to_the_pages() {
    let p = Pagination::new(105, 10);
    assert_eq!(p.jump_to(0).page, 1);
    assert_eq!(p.jump_to(-7).page, 1);
    assert_eq!(p.jump_to(12).page, 11);
    assert_eq!(p.jump_to(i32::MAX).page, 11);
    assert_eq!(p.jump_to(7).page, 7);
    assert_eq!(p.jump_to(11).page, 11);
    assert_eq!(p.jump_to(1).page, 1);
    assert_eq!(p.jump_to(7).total_rows, 105);
    assert_eq!(p.jump_to(7).page_size, 10);
}

#[test]
fn grid_without_rows_stays_on_page_one() {
    let p = Pagination::new(0, 10);
    assert_eq!(p.number_pages, 0);
    assert_eq!(p.increment().page, 1);
    assert_eq!(p.decrement().page, 1);
    assert_eq!(p.jump_to(0).page, 1);
    assert_eq!(p.jump_to(1).page, 1);
    assert_eq!(p.jump_to(5).page, 1);
}

#[test]
fn navigation_leaves_the_argument_as_it_was() {
    let p = on_page(105, 10, 4);
    let _ = p.increment();
    let _ = p.decrement();
    let _ = p.jump_to(9);
    assert_eq!(p, Pagination { page: 4, number_pages: 11, page_size: 10, total_rows: 105 });
}

#[test]
fn the_pages_divide_the_order_among_them() {
    let data_indexes = ids(105);
    let mut p = Pagination::new(105, 10);
    let mut seen: Vec<String> = Vec::new();
    loop {
        seen.extend(get_page_view(&p, &data_indexes));
        let next = p.increment();
        if next == p {
            break;
        }
        p = next;
    }
    assert_eq!(seen, data_indexes);
}
