use colored::Colorize;
use kanben::board::{Board, BoardAccess};
use kanben::commands::{
    clear_done, complete_item, edit_item, handle, list_tasks, now, start_item, tag, view_item,
    Editor, Reader,
};
use kanben::commands::{col_text, find_col_max, is_valid_key};
use kanben::opts::{Item, NewItem, Opts, SubCommand};
use kanben::store::{MemStore, Store};
use kanben::task::{Column, Task};

type TestBoard = Board<MemStore<Task>, MemStore<Vec<String>>>;

fn get_task(key: &str, column: Column) -> Task {
    Task { name: key.to_owned(), column, description: None, tags: None }
}

fn empty_board() -> TestBoard {
    Board::new(MemStore::new(), MemStore::new(), MemStore::new())
}

fn board_with(tasks: Vec<Task>) -> TestBoard {
    let mut board = empty_board();
    for t in tasks {
        let name = t.name.clone();
        board.create_task(&name, None);
        assert!(board.update(&name, t).is_ok());
    }
    board
}

fn five_tasks() -> TestBoard {
    let mut board = empty_board();
    for k in ["task1", "task2", "task3", "task4", "task5"] {
        board.create_task(k, None);
    }
    board
}

struct EditorMock {
    last_open_call: Option<String>,
    last_create_call: Option<String>,
    create_response: Result<String, ()>,
}

impl EditorMock {
    fn new() -> EditorMock {
        EditorMock { last_open_call: None, last_create_call: None, create_response: Ok("filepath".to_string()) }
    }

    fn open_called_with(&self, key_path: &str) -> bool {
        self.last_open_call.as_deref() == Some(key_path)
    }

    fn open_called(&self) -> bool {
        self.last_open_call.is_some()
    }

    fn create_called_with(&self, key: &str) -> bool {
        self.last_create_call.as_deref() == Some(key)
    }

    fn return_from_create(&mut self, path: Result<String, ()>) {
        self.create_response = path;
    }
}

impl Editor for EditorMock {
    fn open(&mut self, path: &str) {
        self.last_open_call = Some(path.to_string());
    }

    fn create(&mut self, key: &str) -> Result<String, ()> {
        self.last_create_call = Some(key.to_string());
        self.create_response.clone()
    }
}

struct ReaderMock {
    read_output: String,
    read_gate: Option<String>,
}

impl ReaderMock {
    fn new() -> ReaderMock {
        ReaderMock { read_output: "".to_string(), read_gate: None }
    }

    fn return_from_read(&mut self, txt: &str) {
        self.read_output = txt.to_string();
    }

    fn return_from_read_when(&mut self, key: &str, val: &str) {
        self.read_output = val.to_string();
        self.read_gate = Some(key.to_string());
    }
}

impl Reader for ReaderMock {
    fn read(&self, path: &str) -> Option<String> {
        match &self.read_gate {
            None => Some(self.read_output.clone()),
            Some(a) if a == path => Some(self.read_output.clone()),
            Some(_) => None,
        }
    }
}

fn opts(subcmd: Option<SubCommand>) -> Opts {
    Opts { subcmd, no_newlines: false, tag: None }
}

#[test]
fn it_adds_a_new_item_to_the_store() {
    let mut board = empty_board();
    let mut editor = EditorMock::new();
    let reader = ReaderMock::new();
    let name = String::from("test");
    let item = NewItem { title: name.clone(), tag: None };
    let out = handle(opts(Some(SubCommand::Add(item))), &mut board, &mut editor, &reader);
    assert_eq!(out.ok(), Some(String::new()));
    assert!(board.get(&name).is_some());
}

#[test]
fn it_doesnt_create_a_new_item_for_a_blank_key() {
    let mut board = empty_board();
    let mut editor = EditorMock::new();
    let reader = ReaderMock::new();
    let item = NewItem { title: String::from(" "), tag: None };
    let _ = handle(opts(Some(SubCommand::Add(item))), &mut board, &mut editor, &reader);
    assert!(board.get(" ").is_none());
    assert!(board.get_all_tasks().is_empty());
}

#[test]
fn it_lists_tasks_when_no_command_is_passed() {
    let mut board = empty_board();
    let mut editor = EditorMock::new();
    let reader = ReaderMock::new();
    let output = handle(opts(None), &mut board, &mut editor, &reader).ok().unwrap();
    assert_eq!(output.as_bytes(), b"TODO:\t\t\tDOING:\t\t\tDONE:\n\n");
}

#[test]
fn it_can_delete_an_item() {
    let mut board = board_with(vec![get_task("test", Column::Todo)]);
    let mut editor = EditorMock::new();
    let reader = ReaderMock::new();
    let item = Item { title: String::from("test") };
    let out = handle(opts(Some(SubCommand::Delete(item))), &mut board, &mut editor, &reader);
    assert!(out.is_ok());
    assert!(board.get("test").is_none());
}

#[test]
fn it_can_clear_done_column() {
    let mut board = board_with(vec![
        get_task("task1", Column::Doing),
        get_task("task2", Column::Todo),
        get_task("task3", Column::Done),
        get_task("task4", Column::Done),
        get_task("task5", Column::Done),
    ]);
    let mut editor = EditorMock::new();
    let reader = ReaderMock::new();
    let out = handle(opts(Some(SubCommand::ClearDone)), &mut board, &mut editor, &reader);
    assert!(out.is_ok());
    assert!(board.get("task3").is_none());
    assert!(board.get("task4").is_none());
    assert!(board.get("task5").is_none());
    assert!(board.get("task1").is_some());
}

#[test]
fn it_opens_an_editor_when_edit_command_is_passed() {
    let mut task = get_task("test", Column::Todo);
    task.description = Some("test".to_owned());
    let mut board = board_with(vec![task]);
    let mut editor = EditorMock::new();
    let reader = ReaderMock::new();
    let item = Item { title: String::from("test") };
    let _ = handle(opts(Some(SubCommand::Edit(item))), &mut board, &mut editor, &reader);
    assert!(editor.open_called());
}

#[test]
fn it_outputs_to_stdout_when_viewing_description() {
    let mut task = get_task("test", Column::Todo);
    task.description = Some("test".to_owned());
    let mut board = board_with(vec![task]);
    let mut editor = EditorMock::new();
    let mut reader = ReaderMock::new();
    reader.return_from_read("abcdef");
    let item = Item { title: String::from("test") };
    let output = handle(opts(Some(SubCommand::View(item))), &mut board, &mut editor, &reader);
    assert_eq!(output.ok().unwrap().as_bytes(), b"abcdef\n");
}

#[test]
fn it_outputs_nothing_when_there_are_no_tasks_for_now() {
    let mut board = empty_board();
    let mut editor = EditorMock::new();
    let reader = ReaderMock::new();
    let output = handle(opts(Some(SubCommand::Now)), &mut board, &mut editor, &reader);
    assert_eq!(output.ok().unwrap().as_bytes(), b"");
}

#[test]
fn it_opens_an_associated_file_when_there_is_one() {
    let key = "test".to_owned();
    let path_to_file = "path to test file".to_owned();
    let mut task = get_task(&key, Column::Todo);
    task.description = Some(path_to_file.clone());
    let mut board = board_with(vec![task]);
    let mut editor = EditorMock::new();
    let _ = edit_item(key, &mut board, &mut editor);
    assert!(editor.open_called_with(&path_to_file));
}

#[test]
fn it_creates_a_new_file_when_there_is_none() {
    let key = String::from("test");
    let mut board = board_with(vec![get_task(&key, Column::Todo)]);
    let mut editor = EditorMock::new();
    let _ = edit_item(key.clone(), &mut board, &mut editor);
    assert!(editor.create_called_with(&key));
}

#[test]
fn it_outputs_a_message_when_there_is_no_task() {
    let key = String::from("test");
    let mut board = empty_board();
    let mut editor = EditorMock::new();
    let output = edit_item(key.clone(), &mut board, &mut editor);
    assert_eq!(output, "No item named 'test' found.\n");
}

#[test]
fn it_stores_the_path_to_a_task_when_a_file_is_created() {
    let key = "test".to_owned();
    let filepath = "test path".to_owned();
    let mut board = board_with(vec![get_task(&key, Column::Todo)]);
    let mut new_task = get_task(&key, Column::Todo);
    new_task.description = Some(filepath.clone());
    let mut editor = EditorMock::new();
    editor.return_from_create(Ok(filepath.clone()));
    let _ = edit_item(key.clone(), &mut board, &mut editor);
    assert_eq!(board.get(&key), Some(new_task));
}

#[test]
fn when_a_path_is_empty_string_it_creates_a_new_file() {
    let key = "test".to_owned();
    let mut task = get_task(&key, Column::Todo);
    task.description = Some("".to_owned());
    let mut board = board_with(vec![task]);
    let mut editor = EditorMock::new();
    let _ = edit_item(key.clone(), &mut board, &mut editor);
    assert!(editor.create_called_with(&key));
}

#[test]
fn list_it_outputs_the_kanban_headers_when_there_are_no_tasks() {
    let board = empty_board();
    let output = list_tasks(None, &board);
    assert_eq!(output.as_bytes(), b"TODO:\t\t\tDOING:\t\t\tDONE:\n\n");
}

#[test]
fn it_sorts_into_rows() {
    let mut board = five_tasks();
    assert!(board.update("task4", get_task("task4", Column::Done)).is_ok());
    assert!(board.update("task1", get_task("task1", Column::Doing)).is_ok());
    assert!(board.update("task3", get_task("task3", Column::Doing)).is_ok());
    let output = list_tasks(None, &board);
    let expected_output = "TODO:\t\t\tDOING:\t\t\tDONE:
task2\t\t\ttask1\t\t\ttask4
task5\t\t\ttask3\t\t\t\n\n";
    assert_eq!(output, expected_output);
}

#[test]
fn it_displays_any_tasks_on_the_board() {
    let mut board = empty_board();
    board.create_task("task1", None);
    assert!(board.update("task1", get_task("task1", Column::Doing)).is_ok());
    let output = list_tasks(None, &board);
    let expected_output = "TODO:\t\t\tDOING:\t\t\tDONE:
\t\t\ttask1\t\t\t\n\n";
    assert_eq!(output, expected_output);
}

#[test]
fn it_takes_long_names_off_the_tabs() {
    let mut board = empty_board();
    for k in ["task1-very-long", "task2-very-long", "task3", "task4", "task5"] {
        board.create_task(k, None);
    }
    assert!(board.update("task1-very-long", get_task("task1-very-long", Column::Doing)).is_ok());
    assert!(board.update("task3", get_task("task3", Column::Doing)).is_ok());
    assert!(board.update("task4", get_task("task4", Column::Done)).is_ok());
    let output = list_tasks(None, &board);
    let expected_output = "TODO:\t\t\tDOING:\t\t\tDONE:
task2-very-long\t\ttask1-very-long\t\ttask4
task5\t\t\ttask3\t\t\t\n\n";
    assert_eq!(output, expected_output);
}

#[test]
fn now_it_outputs_the_kanban_headers_when_there_are_no_tasks() {
    let board = empty_board();
    assert_eq!(now(&board, false, None).as_bytes(), b"");
}

#[test]
fn it_outputs_the_inprogress_task_when_it_exists() {
    let mut board = five_tasks();
    assert!(board.update("task4", get_task("task4", Column::Done)).is_ok());
    assert!(board.update("task1", get_task("task1", Column::Doing)).is_ok());
    assert!(board.update("task3", get_task("task3", Column::Done)).is_ok());
    assert_eq!(now(&board, false, None).as_bytes(), b"task1\n");
}

#[test]
fn it_omits_newlines_when_not_set() {
    let mut board = five_tasks();
    assert!(board.update("task4", get_task("task4", Column::Done)).is_ok());
    assert!(board.update("task1", get_task("task1", Column::Doing)).is_ok());
    assert!(board.update("task3", get_task("task3", Column::Done)).is_ok());
    assert_eq!(now(&board, true, None).as_bytes(), b"task1");
}

#[test]
fn it_delimits_multiple_tasks_by_newline_by_default() {
    let mut board = five_tasks();
    assert!(board.update("task1", get_task("task1", Column::Doing)).is_ok());
    assert!(board.update("task2", get_task("task2", Column::Doing)).is_ok());
    assert!(board.update("task3", get_task("task3", Column::Done)).is_ok());
    assert_eq!(now(&board, false, None).as_bytes(), b"task1\ntask2\n");
}

#[test]
fn it_delimits_multiple_tasks_by_comma_when_no_newlines() {
    let mut board = five_tasks();
    assert!(board.update("task1", get_task("task1", Column::Doing)).is_ok());
    assert!(board.update("task2", get_task("task2", Column::Doing)).is_ok());
    assert!(board.update("task3", get_task("task3", Column::Done)).is_ok());
    assert_eq!(now(&board, true, None), "task1,task2".to_string());
}

#[test]
fn it_filters_by_tag() {
    let mut board = five_tasks();
    let mut task1 = get_task("task1", Column::Doing);
    task1.tags = Some(vec!["tag".to_owned()]);
    assert!(board.update("task1", task1).is_ok());
    assert!(board.update("task2", get_task("task2", Column::Doing)).is_ok());
    assert!(board.update("task3", get_task("task3", Column::Done)).is_ok());
    assert_eq!(now(&board, false, Some("tag".to_owned())), "task1\n".to_string());
}

#[test]
fn it_outputs_the_tasks_tags_when_no_new_tag_is_set() {
    let mut task = get_task("task", Column::Todo);
    task.tags = Some(vec!["tag1".to_owned()]);
    let mut store = MemStore::new();
    store.set("task", task);
    let mut board = Board::new(store, MemStore::new(), MemStore::new());
    let output = tag("task", None, &mut board).ok().unwrap();
    assert_eq!(output.as_bytes(), b"tag1\n");
}

#[test]
fn it_outputs_a_message_when_there_are_no_tags() {
    let mut store = MemStore::new();
    store.set("task", get_task("task", Column::Todo));
    let mut board = Board::new(store, MemStore::new(), MemStore::new());
    let output = tag("task", None, &mut board).ok().unwrap();
    assert_eq!(output.as_bytes(), b"[No tags]\n");
}

#[test]
fn it_outputs_multiple_tags_with_a_comma_delimit() {
    let mut task = get_task("task", Column::Todo);
    task.tags = Some(vec!["tag1".to_owned(), "tag2".to_owned()]);
    let mut store = MemStore::new();
    store.set("task", task);
    let mut board = Board::new(store, MemStore::new(), MemStore::new());
    let output = tag("task", None, &mut board).ok().unwrap();
    assert_eq!(output.as_bytes(), b"tag1, tag2\n");
}

#[test]
fn it_exits_gracefully_when_no_task_is_found() {
    let mut board = empty_board();
    let output = tag("task", None, &mut board).ok().unwrap();
    assert_eq!(output.as_bytes(), b"No task called 'task' found.\n");
}

#[test]
fn it_adds_a_tag_when_one_is_passed() {
    let mut board = empty_board();
    board.create_task("task", None);
    let _ = tag("task", Some("tag".to_string()), &mut board);
    let changed_task = board.store().get("task").unwrap();
    assert_eq!(changed_task.tags, Some(vec!["tag".to_string()]));
}

#[test]
fn tag_it_indexes_tags_when_they_are_created() {
    let mut board = empty_board();
    board.create_task("task", None);
    let _ = tag("task", Some("tag".to_string()), &mut board);
    assert_eq!(board.tag_store().get("tag").unwrap(), vec!["task".to_string()]);
}

#[test]
fn it_outputs_to_writer_from_reader() {
    let mut task = get_task("test", Column::Todo);
    task.description = Some("test".to_owned());
    let board = board_with(vec![task]);
    let mut reader = ReaderMock::new();
    reader.return_from_read("abcdef");
    assert_eq!(view_item("test".to_string(), &board, &reader).as_bytes(), b"abcdef\n");
}

#[test]
fn it_opens_the_file_in_description() {
    let mut task = get_task("test", Column::Todo);
    task.description = Some("test".to_string());
    let board = board_with(vec![task]);
    let mut reader = ReaderMock::new();
    reader.return_from_read_when("test", "file contents");
    assert_eq!(view_item("test".to_string(), &board, &reader).as_bytes(), b"file contents\n");
}

#[test]
fn it_outputs_a_message_when_no_task_exists() {
    let board = empty_board();
    let reader = ReaderMock::new();
    assert_eq!(
        view_item("test".to_string(), &board, &reader).as_bytes(),
        b"No task named 'test' found.\n"
    );
}

#[test]
fn it_outputs_a_message_when_no_description_exists() {
    let board = board_with(vec![get_task("test", Column::Todo)]);
    let reader = ReaderMock::new();
    assert_eq!(view_item("test".to_string(), &board, &reader).as_bytes(), b"Empty description\n");
}

#[test]
fn it_outputs_a_message_when_description_file_fails_to_open() {
    let mut task = get_task("test", Column::Todo);
    task.description = Some("test".to_string());
    let board = board_with(vec![task]);
    let mut reader = ReaderMock::new();
    reader.return_from_read_when("fakeroute", "file contents");
    assert_eq!(
        view_item("test".to_string(), &board, &reader).as_bytes(),
        b"Error loading file for 'test'\n"
    );
}

#[test]
fn it_outputs_tags_at_the_top_of_a_message() {
    let mut task = get_task("test", Column::Todo);
    task.description = Some("test".to_owned());
    task.tags = Some(vec!["tag1".to_owned()]);
    let board = board_with(vec![task]);
    let mut reader = ReaderMock::new();
    reader.return_from_read_when("test", "file contents");
    let output = view_item("test".to_string(), &board, &reader);
    let expected = format!("{}{}", "tags: tag1\n".bold(), "file contents\n");
    assert_eq!(output, expected);
}

#[test]
fn start_and_complete_move_a_task_along() {
    let mut board = five_tasks();
    assert!(start_item("task2".to_string(), &mut board).is_ok());
    assert_eq!(board.get("task2").unwrap().column, Column::Doing);
    assert!(complete_item("task2".to_string(), &mut board).is_ok());
    assert_eq!(board.get("task2").unwrap().column, Column::Done);
    assert!(start_item("absent".to_string(), &mut board).is_ok());
    assert!(board.get("absent").is_none());
}

#[test]
fn clear_done_leaves_other_columns_alone() {
    let mut board = board_with(vec![get_task("a", Column::Done), get_task("b", Column::Todo)]);
    assert!(clear_done(&mut board).is_ok());
    assert_eq!(board.get_all_tasks().len(), 1);
    assert!(board.get("b").is_some());
}

#[test]
fn keys_with_text_are_valid() {
    assert!(is_valid_key("a"));
    assert!(is_valid_key("  x "));
    assert!(!is_valid_key(""));
    assert!(!is_valid_key(" \t\n"));
}

#[test]
fn cells_pad_to_the_next_column() {
    assert_eq!(col_text(None), "\t\t\t");
    assert_eq!(col_text(Some(&"abcdefgh".to_string())), "abcdefgh\t\t");
    assert_eq!(col_text(Some(&"abcdefghi".to_string())), "abcdefghi\t\t");
    assert_eq!(col_text(Some(&"x".repeat(24))), "x".repeat(24));
}

#[test]
fn col_max_is_the_largest() {
    assert_eq!(find_col_max(vec![2, 7, 3]), 7);
    assert_eq!(find_col_max(vec![0]), 0);
}

#[test]
fn reindex_command_rebuilds_columns() {
    let mut store = MemStore::new();
    store.set("a", get_task("a", Column::Done));
    let mut board = Board::new(store, MemStore::new(), MemStore::new());
    let mut editor = EditorMock::new();
    let reader = ReaderMock::new();
    let out = handle(opts(Some(SubCommand::Reindex)), &mut board, &mut editor, &reader);
    assert_eq!(out.ok(), Some(String::new()));
    assert_eq!(board.column_store().get("done").unwrap(), vec!["a".to_string()]);
}

#[test]
fn cells_pad_by_utf8_bytes() {
    let label = "é".repeat(8);
    assert_eq!(col_text(Some(&label)), format!("{}\t", label));
}

#[test]
fn white_space_matches_std() {
    for u in 0u32..=0x10FFFF {
        if let Some(c) = char::from_u32(u) {
            assert_eq!(kanben::text::white_space(c), c.is_whitespace(), "{:x}", u);
        }
    }
}

#[test]
fn view_output_follows_what_was_read() {
    let some = Some("p".to_string());
    assert_eq!(kanben::commands::view_output("k", "T".to_string(), &None, None), "TEmpty description\n");
    assert_eq!(kanben::commands::view_output("k", String::new(), &some, None), "Error loading file for 'k'\n");
    assert_eq!(
        kanben::commands::view_output("k", String::new(), &some, Some("body".to_string())),
        "body\n"
    );
}

#[test]
fn recording_a_created_file_sets_the_description() {
    let mut board = board_with(vec![get_task("k", Column::Doing)]);
    kanben::commands::record_description("k", Err(()), &mut board);
    assert_eq!(board.get("k").unwrap().description, None);
    kanben::commands::record_description("k", Ok("path".to_string()), &mut board);
    assert_eq!(board.get("k").unwrap().description, Some("path".to_string()));
    assert_eq!(board.get("k").unwrap().column, Column::Doing);
}

#[test]
fn clear_done_stops_at_a_done_task_missing_from_its_column() {
    let mut store = MemStore::new();
    store.set("lost", get_task("lost", Column::Done));
    store.set("kept", get_task("kept", Column::Done));
    let mut col_store = MemStore::new();
    col_store.set("done", vec!["kept".to_string()]);
    let mut board = Board::new(store, col_store, MemStore::new());
    let err = clear_done(&mut board).unwrap_err();
    assert_eq!(err.key, "lost");
    assert!(board.get("lost").is_some());
    assert!(board.get("kept").is_some());
}
