use kanben::board::{Board, BoardAccess};
use kanben::store::{MemStore, Store};
use kanben::task::{Column, Task};

type TestBoard = Board<MemStore<Task>, MemStore<Vec<String>>>;

fn get_task(key: &str, column: Column) -> Task {
    Task { name: key.to_owned(), column, description: None, tags: None }
}

fn empty_board() -> TestBoard {
    Board::new(MemStore::new(), MemStore::new(), MemStore::new())
}

fn strings(items: &[&str]) -> Vec<String> {
    items.iter().map(|s| s.to_string()).collect()
}

fn names(tasks: &[Task]) -> Vec<String> {
    tasks.iter().map(|t| t.name.clone()).collect()
}

fn doing_board() -> TestBoard {
    let mut store = MemStore::new();
    store.bulk_insert(vec![
        ("task1", get_task("task1", Column::Doing)),
        ("task2", get_task("task2", Column::Doing)),
        ("task4", get_task("task4", Column::Todo)),
    ]);
    let mut col_store = MemStore::new();
    col_store.bulk_insert(vec![("doing", strings(&["task2", "task1"]))]);
    Board::new(store, col_store, MemStore::new())
}

#[test]
fn it_can_get_all_tasks() {
    let mut store = MemStore::new();
    store.bulk_insert(vec![
        ("task1", get_task("task1", Column::Doing)),
        ("task2", get_task("task2", Column::Todo)),
    ]);
    let board = Board::new(store, MemStore::new(), MemStore::new());
    let tasks = board.get_all_tasks();
    assert_eq!(tasks.len(), 2);
}

#[test]
fn it_can_create_a_task_with_a_key() {
    let mut board = empty_board();
    board.create_task("test", None);
    let task = get_task("test", Column::Todo);
    assert_eq!(board.store().get("test"), Some(task));
}

#[test]
fn it_adds_new_tasks_to_todo() {
    let mut board = empty_board();
    board.create_task("test", None);
    assert_eq!(board.column_store().get("todo").unwrap(), strings(&["test"]));
}

#[test]
fn new_tasks_added_to_bottom_of_todo_column() {
    let mut board = empty_board();
    board.create_task("test1", None);
    board.create_task("test2", None);
    assert_eq!(board.column_store().get("todo").unwrap(), strings(&["test1", "test2"]));
}

#[test]
fn it_can_get_a_task_with_a_key() {
    let task = get_task("test", Column::Todo);
    let mut store = MemStore::new();
    store.set("test", task.clone());
    let board = Board::new(store, MemStore::new(), MemStore::new());
    let returned_task = board.get("test");
    assert_eq!(returned_task.unwrap(), task.clone());
}

#[test]
fn it_can_rm_a_task_with_a_key() {
    let mut board = empty_board();
    board.create_task("test", None);
    assert!(board.remove("test").is_ok());
    assert!(board.store().get("test").is_none());
}

#[test]
fn removing_a_task_removes_it_from_the_column() {
    let mut board = empty_board();
    board.create_task("test", None);
    assert!(board.remove("test").is_ok());
    assert_eq!(board.column_store().get("todo").unwrap().len(), 0);
}

#[test]
fn it_can_update() {
    let task = get_task("test", Column::Todo);
    let mut board = empty_board();
    board.create_task("test", None);
    assert!(board.update("test", task.clone()).is_ok());
    assert_eq!(board.store().get("test"), Some(task));
}

#[test]
fn update_moves_items_between_columns() {
    let task = get_task("test", Column::Doing);
    let mut board = empty_board();
    board.create_task("test", None);
    assert!(board.update("test", task.clone()).is_ok());
    assert_eq!(board.column_store().get("doing").unwrap().len(), 1);
}

#[test]
fn it_can_return_tasks_by_column() {
    let board = doing_board();
    let tasks = board.get_column("doing", None);
    assert_eq!(tasks.len(), 2);
}

#[test]
fn it_can_reindex_columns() {
    let task = get_task("test", Column::Doing);
    let mut store = MemStore::new();
    store.set("test", task.clone());
    let mut board = Board::new(store, MemStore::new(), MemStore::new());
    let _ = board.reindex_columns();
    assert_eq!(board.column_store().get("doing").unwrap().len(), 1);
}

#[test]
fn it_can_make_an_item_top_priority() {
    let mut store = MemStore::new();
    store.bulk_insert(vec![
        ("task1", get_task("task1", Column::Doing)),
        ("task2", get_task("task2", Column::Doing)),
        ("task4", get_task("task2", Column::Todo)),
    ]);
    let mut col_store = MemStore::new();
    col_store.bulk_insert(vec![("doing", strings(&["task2", "task1"]))]);
    let mut board = Board::new(store, col_store, MemStore::new());
    assert!(board.top_priority("task1").is_ok());
    let col = board.get_column("doing", None);
    let task1 = col.get(0).unwrap();
    assert_eq!(&task1.name, "task1");
}

#[test]
fn it_can_move_an_item_after_making_it_priority() {
    let mut board = doing_board();
    assert!(board.top_priority("task1").is_ok());
    assert!(board.update("task1", get_task("task1", Column::Done)).is_ok());
    assert_eq!(board.get_column("done", None).len(), 1);
}

#[test]
fn it_can_repeat_a_priority_action() {
    let mut board = doing_board();
    assert!(board.top_priority("task1").is_ok());
    assert!(board.top_priority("task2").is_ok());
    assert_eq!(
        board.get_column("doing", None).get(0).unwrap(),
        &get_task("task2", Column::Doing)
    );
}

#[test]
fn board_it_indexes_tags_when_they_are_created() {
    let mut board = empty_board();
    board.create_task("task", None);
    let mut new_task = get_task("task", Column::Todo);
    new_task.tags = Some(strings(&["tag"]));
    assert!(board.update("task", new_task).is_ok());
    assert_eq!(board.tag_store().get("tag").unwrap(), strings(&["task"]));
}

#[test]
fn it_adds_to_existing_indexes_when_there_is_a_tag() {
    let mut tag_store = MemStore::new();
    tag_store.set("tag", strings(&["task2"]));
    let mut board = Board::new(MemStore::new(), MemStore::new(), tag_store);
    board.create_task("task", None);
    let mut new_task = get_task("task", Column::Todo);
    new_task.tags = Some(strings(&["tag"]));
    assert!(board.update("task", new_task).is_ok());
    assert_eq!(board.tag_store().get("tag").unwrap(), strings(&["task2", "task"]));
}

#[test]
fn it_doesnt_dupe_tag_indices() {
    let mut tag_store = MemStore::new();
    tag_store.set("tag", strings(&["task"]));
    let mut board = Board::new(MemStore::new(), MemStore::new(), tag_store);
    board.create_task("task", None);
    let mut new_task = get_task("task", Column::Todo);
    new_task.tags = Some(strings(&["tag"]));
    assert!(board.update("task", new_task).is_ok());
    assert_eq!(board.tag_store().get("tag").unwrap(), strings(&["task"]));
}

#[test]
fn it_removes_old_tags() {
    let mut tag_store = MemStore::new();
    tag_store.set("tag", strings(&["task"]));
    let mut col_store = MemStore::new();
    col_store.set("todo", strings(&["task"]));
    let mut task = get_task("task", Column::Todo);
    task.tags = Some(strings(&["tag"]));
    let mut store = MemStore::new();
    store.set("task", task);
    let mut board = Board::new(store, col_store, tag_store);
    let new_task = get_task("task", Column::Todo);
    assert!(board.update("task", new_task).is_ok());
    let expected_list: Vec<String> = vec![];
    assert_eq!(board.tag_store().get("tag").unwrap(), expected_list);
}

#[test]
fn it_can_create_a_task_with_a_tag() {
    let mut board = empty_board();
    board.create_task("test", Some("tag".to_owned()));
    let mut task = get_task("test", Column::Todo);
    task.tags = Some(strings(&["tag"]));
    assert_eq!(board.store().get("test"), Some(task));
}

#[test]
fn it_indexes_tags_from_new_tasks() {
    let mut board = empty_board();
    board.create_task("test", Some("tag".to_owned()));
    assert_eq!(board.tag_store().get("tag").unwrap(), strings(&["test"]));
}

#[test]
fn it_can_return_tasks_by_column_filtered_by_tag() {
    let mut task1 = get_task("task1", Column::Doing);
    task1.tags = Some(strings(&["tag"]));
    let mut task2 = get_task("task2", Column::Doing);
    task2.tags = Some(strings(&["tag"]));
    let mut store = MemStore::new();
    store.bulk_insert(vec![
        ("task1", task1.clone()),
        ("task2", task2.clone()),
        ("task3", get_task("task3", Column::Doing)),
    ]);
    let mut col_store = MemStore::new();
    col_store.bulk_insert(vec![("doing", strings(&["task1", "task2", "task3"]))]);
    let mut tag_store = MemStore::new();
    tag_store.set("tag", strings(&["task1", "task2"]));
    let board = Board::new(store, col_store, tag_store);
    let tasks = board.get_column("doing", Some("tag".to_owned()));
    assert_eq!(tasks, vec![task1.clone(), task2.clone()]);
}

#[test]
fn scenario_create_move_tag_and_untag() {
    let mut board = empty_board();
    board.create_task("a", None);
    board.create_task("b", None);
    assert_eq!(names(&board.get_column("todo", None)), strings(&["a", "b"]));
    assert!(board.update("a", get_task("a", Column::Doing)).is_ok());
    assert_eq!(names(&board.get_column("todo", None)), strings(&["b"]));
    assert_eq!(names(&board.get_column("doing", None)), strings(&["a"]));
    let mut tagged = get_task("a", Column::Doing);
    tagged.tags = Some(strings(&["urgent"]));
    assert!(board.update("a", tagged).is_ok());
    assert_eq!(names(&board.get_column("doing", Some("urgent".to_owned()))), strings(&["a"]));
    let mut untagged = get_task("a", Column::Doing);
    untagged.tags = Some(vec![]);
    assert!(board.update("a", untagged).is_ok());
    assert!(board.get_column("doing", Some("urgent".to_owned())).is_empty());
    assert_eq!(names(&board.get_column("doing", None)), strings(&["a"]));
}

#[test]
fn created_task_is_last_in_todo() {
    let mut board = empty_board();
    board.create_task("x", None);
    board.create_task("y", Some("t".to_owned()));
    let todo = board.column_store().get("todo").unwrap();
    assert_eq!(todo.last().unwrap(), "y");
    assert_eq!(board.get("y").unwrap().column, Column::Todo);
}

#[test]
fn column_lists_track_columns_after_updates() {
    let mut board = empty_board();
    for k in ["t1", "t2", "t3", "t4"] {
        board.create_task(k, None);
    }
    assert!(board.update("t2", get_task("t2", Column::Done)).is_ok());
    assert!(board.update("t4", get_task("t4", Column::Doing)).is_ok());
    assert!(board.update("t1", get_task("t1", Column::Done)).is_ok());
    assert_eq!(names(&board.get_column("todo", None)), strings(&["t3"]));
    assert_eq!(names(&board.get_column("doing", None)), strings(&["t4"]));
    assert_eq!(names(&board.get_column("done", None)), strings(&["t2", "t1"]));
}

#[test]
fn tag_filter_keeps_only_tagged_tasks_of_the_column() {
    let mut board = empty_board();
    board.create_task("p", Some("g".to_owned()));
    board.create_task("q", None);
    board.create_task("r", Some("g".to_owned()));
    let mut moved = get_task("r", Column::Doing);
    moved.tags = Some(strings(&["g"]));
    assert!(board.update("r", moved).is_ok());
    assert_eq!(names(&board.get_column("todo", Some("g".to_owned()))), strings(&["p"]));
    assert_eq!(names(&board.get_column("doing", Some("g".to_owned()))), strings(&["r"]));
    assert!(board.get_column("todo", Some("missing".to_owned())).is_empty());
}

#[test]
fn updating_twice_matches_updating_once() {
    let mut board = empty_board();
    board.create_task("k", Some("old".to_owned()));
    let mut t = get_task("k", Column::Done);
    t.tags = Some(strings(&["new"]));
    assert!(board.update("k", t.clone()).is_ok());
    let cols: Vec<Option<Vec<String>>> =
        ["todo", "doing", "done"].iter().map(|l| board.column_store().get(l)).collect();
    let tags: Vec<Option<Vec<String>>> =
        ["old", "new"].iter().map(|g| board.tag_store().get(g)).collect();
    assert!(board.update("k", t.clone()).is_ok());
    let cols2: Vec<Option<Vec<String>>> =
        ["todo", "doing", "done"].iter().map(|l| board.column_store().get(l)).collect();
    let tags2: Vec<Option<Vec<String>>> =
        ["old", "new"].iter().map(|g| board.tag_store().get(g)).collect();
    assert_eq!(cols, cols2);
    assert_eq!(tags, tags2);
}

#[test]
fn reindex_repairs_a_corrupted_index_and_is_idempotent() {
    let mut store = MemStore::new();
    store.bulk_insert(vec![
        ("a", get_task("a", Column::Doing)),
        ("b", get_task("b", Column::Todo)),
        ("c", get_task("c", Column::Doing)),
    ]);
    let mut col_store = MemStore::new();
    col_store.bulk_insert(vec![
        ("todo", strings(&["a", "ghost"])),
        ("done", strings(&["b"])),
    ]);
    let mut board = Board::new(store, col_store, MemStore::new());
    assert_eq!(board.reindex_columns(), Ok(3));
    assert_eq!(board.column_store().get("todo").unwrap(), strings(&["b"]));
    assert_eq!(board.column_store().get("doing").unwrap(), strings(&["a", "c"]));
    assert_eq!(board.column_store().get("done").unwrap(), strings(&[]));
    assert_eq!(board.reindex_columns(), Ok(board.get_all_tasks().len()));
    assert_eq!(board.column_store().get("doing").unwrap(), strings(&["a", "c"]));
}

#[test]
fn reindex_of_an_empty_board_counts_nothing() {
    let mut board = empty_board();
    assert_eq!(board.reindex_columns(), Ok(0));
    assert_eq!(board.column_store().get("todo").unwrap().len(), 0);
}

#[test]
fn second_top_priority_shifts_the_first() {
    let mut board = empty_board();
    for k in ["a", "b", "c"] {
        board.create_task(k, None);
    }
    assert!(board.top_priority("c").is_ok());
    assert_eq!(names(&board.get_column("todo", None)), strings(&["c", "a", "b"]));
    assert!(board.top_priority("b").is_ok());
    assert_eq!(names(&board.get_column("todo", None)), strings(&["b", "c", "a"]));
}

#[test]
fn top_priority_reports_a_key_missing_from_its_column() {
    let mut store = MemStore::new();
    store.set("lost", get_task("lost", Column::Doing));
    let mut board = Board::new(store, MemStore::new(), MemStore::new());
    let err = board.top_priority("lost").unwrap_err();
    assert_eq!(err.key, "lost");
    assert_eq!(err.index, "doing");
}

#[test]
fn remove_reports_a_key_missing_from_its_column() {
    let mut store = MemStore::new();
    store.set("lost", get_task("lost", Column::Todo));
    let mut board = Board::new(store, MemStore::new(), MemStore::new());
    let err = board.remove("lost").unwrap_err();
    assert_eq!(err.key, "lost");
    assert_eq!(err.index, "todo");
    assert!(board.get("lost").is_some());
}

#[test]
fn update_reports_a_dropped_tag_missing_from_its_list() {
    let mut task = get_task("k", Column::Todo);
    task.tags = Some(strings(&["g"]));
    let mut store = MemStore::new();
    store.set("k", task);
    let mut col_store = MemStore::new();
    col_store.set("todo", strings(&["k"]));
    let mut board = Board::new(store, col_store, MemStore::new());
    let err = board.update("k", get_task("k", Column::Doing)).unwrap_err();
    assert_eq!(err.key, "k");
    assert_eq!(err.index, "g");
    assert_eq!(board.get("k").unwrap().column, Column::Todo);
    assert_eq!(board.column_store().get("todo").unwrap(), strings(&["k"]));
}

#[test]
fn update_reports_a_move_from_a_column_missing_the_key() {
    let mut store = MemStore::new();
    store.set("k", get_task("k", Column::Todo));
    let mut board = Board::new(store, MemStore::new(), MemStore::new());
    let err = board.update("k", get_task("k", Column::Done)).unwrap_err();
    assert_eq!(err.index, "todo");
}

#[test]
fn operations_on_absent_keys_do_nothing() {
    let mut board = empty_board();
    assert!(board.get("none").is_none());
    assert!(board.update("none", get_task("none", Column::Done)).is_ok());
    assert!(board.remove("none").is_ok());
    assert!(board.top_priority("none").is_ok());
    assert!(board.get_all_tasks().is_empty());
    assert!(board.column_store().get("done").is_none());
}

#[test]
fn get_column_skips_keys_without_records() {
    let mut store = MemStore::new();
    store.set("real", get_task("real", Column::Todo));
    let mut col_store = MemStore::new();
    col_store.set("todo", strings(&["ghost", "real"]));
    let board = Board::new(store, col_store, MemStore::new());
    assert_eq!(names(&board.get_column("todo", None)), strings(&["real"]));
}

#[test]
fn mem_store_lists_in_first_set_order_and_forgets_removed_keys() {
    let mut store: MemStore<Vec<String>> = MemStore::new();
    store.set("b", strings(&["1"]));
    store.set("a", strings(&["2"]));
    store.set("b", strings(&["3"]));
    assert_eq!(store.get_all(), vec![strings(&["3"]), strings(&["2"])]);
    store.rm("b");
    assert!(store.get("b").is_none());
    assert_eq!(store.get_all(), vec![strings(&["2"])]);
}

#[test]
fn it_records_what_is_set() {
    let mut store = MemStore::new();
    let name = String::from("test");
    let task = get_task(&name, Column::Doing);
    store.set(&name, task.clone());
    assert_eq!(store.get(&name), Some(task));
}

#[test]
fn it_returns_false_if_set_not_called_with_passed_values() {
    let mut store = MemStore::new();
    let name = String::from("test");
    let passed_task = get_task("fake test", Column::Doing);
    let checked_task = get_task(&name, Column::Doing);
    store.set(&name, passed_task.clone());
    assert!(store.get(&name) != Some(checked_task));
}

#[test]
fn it_can_bulk_add_tasks() {
    let mut store = MemStore::new();
    let name = String::from("test");
    let task = get_task("fake test", Column::Doing);
    store.bulk_insert(vec![(&name, task.clone())]);
    assert_eq!(store.get_all(), vec![task.clone()]);
}

#[test]
fn it_can_set_the_response_of_get() {
    let mut store = MemStore::new();
    let task = get_task("test", Column::Doing);
    store.set("test", task.clone());
    let returned_task: Task = store.get("test").unwrap();
    assert_eq!(returned_task, task.clone());
}

#[test]
fn it_can_bulk_add_for_get_by_key() {
    let mut store = MemStore::new();
    let key = String::from("test");
    let task = get_task("fake test", Column::Doing);
    store.bulk_insert(vec![(&key, task.clone())]);
    assert_eq!(store.get(&key), Some(task.clone()));
}
