use sedit::app::display::number_label;
use sedit::app::display::status_text;
use sedit::app::input::Key;
use sedit::app::input::KeyPress;
use sedit::app::io::split_words;
use sedit::app::io::title;
use sedit::app::App;
use sedit::app::Mode;
use sedit::app::Request;
use sedit::node::nodes_from;
use sedit::node::Node;
use sedit::reader::read;
use sedit::reader::Datum;

fn plain(code: Key) -> KeyPress {
    KeyPress { code, ctrl: false, alt: false }
}

fn press(app: &mut App, keys: &str) {
    for c in keys.chars() {
        let code = match c {
            '\t' => Key::Tab,
            '\n' => Key::Enter,
            '\x08' => Key::BackTab,
            '\x1b' => Key::Esc,
            '\x7f' => Key::Backspace,
            '\x04' => Key::Delete,
            _ => Key::Char(c),
        };
        app.handle_key(plain(code));
    }
}

fn insert(keys: &str) -> App {
    let mut app = App::new();
    press(&mut app, "i");
    press(&mut app, keys);
    app
}

fn text(chars: &Vec<char>) -> String {
    chars.iter().collect()
}

fn shape(app: &App) -> Vec<(String, usize)> {
    app.nodes.iter().map(|n| (text(&n.text), n.depth)).collect()
}

fn read_error(source: &str) -> String {
    match read(source) {
        Ok(_) => panic!("{:?} should not read", source),
        Err(message) => message,
    }
}

#[test]
fn each_read_error_has_its_message() {
    assert_eq!(read_error("a)"), "too many closing parentheses");
    assert_eq!(read_error("'"), "no datum");
    assert_eq!(read_error("(a"), "unclosed parenthesis");
    assert_eq!(read_error("\"a"), "unclosed string");
    assert_eq!(read_error("|a"), "unclosed |");
    assert_eq!(read_error("#| a"), "unclosed block comment");
}

#[test]
fn undo_then_redo_restores_the_edit() {
    let mut app = insert("f\n\ta\nb");
    press(&mut app, "\x1bdd");
    let after = shape(&app);
    let cursor = (app.cursor, app.cursor_col);
    press(&mut app, "u");
    assert_eq!(app.to_scheme(), "(f a b)");
    app.handle_key(KeyPress { code: Key::Char('r'), ctrl: true, alt: false });
    assert_eq!(shape(&app), after);
    assert_eq!((app.cursor, app.cursor_col), cursor);
    assert!(app.redo.is_empty());
}

#[test]
fn redo_then_undo_comes_back() {
    let mut app = insert("abc");
    press(&mut app, "\x1bxx");
    press(&mut app, "uu");
    let before = shape(&app);
    let redo = app.redo.len();
    app.handle_key(KeyPress { code: Key::Char('r'), ctrl: true, alt: false });
    press(&mut app, "u");
    assert_eq!(shape(&app), before);
    assert_eq!(app.redo.len(), redo);
}

#[test]
fn backspace_after_enter_joins_again() {
    let mut app = insert("f\n\tabcd\nb");
    press(&mut app, "\x1bk");
    let before = shape(&app);
    press(&mut app, "0lli\n");
    assert_eq!(text(&app.nodes[1].text), "ab");
    assert_eq!(text(&app.nodes[2].text), "cd");
    press(&mut app, "\x7f");
    assert_eq!(shape(&app), before);
    assert_eq!((app.cursor, app.cursor_col), (1, 2));
}

#[test]
fn backspace_after_enter_at_the_end_deletes_the_empty_half() {
    let mut app = insert("f\n\tab\n\tc");
    press(&mut app, "\x1bk");
    let before = shape(&app);
    press(&mut app, "A\n");
    assert_eq!(app.nodes.len(), before.len() + 1);
    press(&mut app, "\x7f");
    assert_eq!(shape(&app), before);
    assert_eq!((app.cursor, app.cursor_col), (1, 2));
}

#[test]
fn delete_after_enter_joins_again() {
    let mut app = insert("f\n\tabcd\n\tx");
    press(&mut app, "\x1bk");
    let before = shape(&app);
    press(&mut app, "0lli\n");
    press(&mut app, "\x1bk");
    app.handle_key(plain(Key::End));
    press(&mut app, "i");
    app.handle_key(plain(Key::End));
    app.handle_key(plain(Key::Delete));
    assert_eq!(shape(&app), before);
}

#[test]
fn indenting_a_subtree_and_back_restores_it() {
    let mut app = insert("f\na\n\tb\n\t\tc\n\x08\x08d");
    press(&mut app, "\x1b");
    let before = shape(&app);
    press(&mut app, ":2\n>>");
    assert_eq!(app.nodes.iter().map(|n| n.depth).collect::<Vec<_>>(), vec![0, 1, 2, 3, 0]);
    press(&mut app, "<<");
    assert_eq!(shape(&app), before);
}

#[test]
fn deleting_nodes_repairs_depths_once() {
    let mut app = insert("a\n\tb\n\tc\n\td\n\te");
    press(&mut app, "\x1bggj2dd");
    let depths: Vec<usize> = app.nodes.iter().map(|n| n.depth).collect();
    assert_eq!(depths, vec![0, 1, 2]);
    for k in 1..depths.len() {
        assert!(depths[k] <= depths[k - 1] + 1);
    }
}

#[test]
fn number_labels_are_right_aligned() {
    assert_eq!(text(&number_label(1, 4)), "  1 ");
    assert_eq!(text(&number_label(12, 4)), " 12 ");
    assert_eq!(text(&number_label(1234, 4)), "1234 ");
    assert_eq!(text(&number_label(7, 1)), "7 ");
}

#[test]
fn the_bottom_line_shows_what_is_typed() {
    let mut app = App::new();
    app.message = "hello".chars().collect();
    assert_eq!(status_text(&app), "hello");
    press(&mut app, ":w x");
    assert_eq!(app.mode, Mode::Command);
    assert_eq!(status_text(&app), ":w x");
    press(&mut app, "\x1b?ab");
    assert_eq!(status_text(&app), "?ab");
    press(&mut app, "\x1b/c");
    assert_eq!(status_text(&app), "/c");
}

#[test]
fn the_title_names_file_change_and_mode() {
    let mut app = App::new();
    assert_eq!(title(&app), " [No Name] - NORMAL ");
    press(&mut app, "ix");
    assert_eq!(title(&app), " [No Name] [+] - INSERT ");
    app.path = Some("a.scm".to_string());
    press(&mut app, "\x1bV");
    assert_eq!(title(&app), " a.scm [+] - VISUAL LINE ");
}

#[test]
fn long_source_lines_take_several_rows() {
    let mut app = insert("0123456789ABCDEFGHIJKLMNOPQRSTUVWXYZabcd");
    press(&mut app, "\x1b");
    app.toggle_source_view();
    app.refresh_row_offsets(10);
    assert_eq!(app.row_offsets, vec![0]);
    assert_eq!(app.total_rows, 4);
    app.toggle_source_view();
    app.refresh_row_offsets(10);
    assert_eq!(app.total_rows, 1);
}

#[test]
fn words_split_at_white_space() {
    let line: Vec<char> = "  set  nu\tnumber! ".chars().collect();
    let words: Vec<String> = split_words(&line).iter().map(text).collect();
    assert_eq!(words, vec!["set", "nu", "number!"]);
}

#[test]
fn writing_asks_for_the_source_and_a_line_break() {
    let mut app = insert("f\n\ta");
    press(&mut app, "\x1b:w out.scm\n");
    match &app.request {
        Some(Request::Write { path, text, quit, tree }) => {
            assert_eq!(path, "out.scm");
            assert_eq!(text, "(f a)\n");
            assert!(!quit);
            assert!(!tree);
        }
        other => panic!("unexpected request {:?}", other),
    }
    app.request = None;
    press(&mut app, ":wt t.txt\n");
    match &app.request {
        Some(Request::Write { path, text, tree, .. }) => {
            assert_eq!(path, "t.txt");
            assert_eq!(text, "f\n└── a\n");
            assert!(tree);
        }
        other => panic!("unexpected request {:?}", other),
    }
}

#[test]
fn a_failed_write_keeps_the_changes_marked() {
    let mut app = insert("x");
    press(&mut app, "\x1b");
    app.finish_write("/nowhere/x.scm", false, true, Err("denied".to_string()));
    assert!(app.modified);
    assert!(!app.quit);
    assert_eq!(text(&app.message), "cannot write: denied");
    app.finish_write("x.scm", false, true, Ok(()));
    assert!(!app.modified);
    assert!(app.quit);
    assert_eq!(text(&app.message), "wrote x.scm");
}

#[test]
fn reading_a_file_replaces_the_nodes() {
    let mut app = insert("old");
    press(&mut app, "\x1b");
    assert!(!app.finish_read("a.scm", Err("missing".to_string())));
    assert_eq!(text(&app.message), "cannot read: missing");
    assert!(!app.finish_read("a.scm", Ok("(a".to_string())));
    assert_eq!(text(&app.message), "cannot read a.scm: unclosed parenthesis");
    assert_eq!(app.to_scheme(), "old");
    assert!(app.finish_read("a.scm", Ok("(f ; c\n a)".to_string())));
    assert_eq!(app.to_scheme(), "; c\n\n(f a)");
    assert_eq!(
        text(&app.message),
        "read a.scm. Moved 1 comment(s) found inside expressions to the start of the line"
    );
    assert!(app.undo.is_empty());
    assert!(!app.modified);
}

#[test]
fn an_empty_file_reads_as_one_empty_node() {
    let mut app = App::new();
    assert!(app.finish_read("e.scm", Ok(String::new())));
    assert_eq!(app.nodes.len(), 1);
    assert!(app.nodes[0].text.is_empty());
}

#[test]
fn searching_for_a_node_takes_its_text_literally() {
    let mut app = insert("a+b");
    press(&mut app, "\naab\na+b");
    press(&mut app, "\x1bgg*");
    assert_eq!(app.cursor, 2);
}

#[test]
fn counting_matches_reports_without_changing() {
    let mut app = insert("abab ab");
    press(&mut app, "\x1b:s/ab/X/gn\n");
    assert_eq!(text(&app.message), "3 match(es)");
    assert_eq!(app.to_scheme(), "abab ab");
}

#[test]
fn empty_node_shows_a_circle() {
    let mut app = App::new();
    app.nodes = vec![Node { text: Vec::new(), depth: 0 }];
    assert_eq!(app.tree_lines(), vec!["◦"]);
}

#[test]
fn unsaved_changes_block_quitting_and_reading() {
    let mut app = insert("x");
    press(&mut app, "\x1b:q\n");
    assert!(!app.quit);
    assert_eq!(text(&app.message), "unsaved changes. Use :q! to discard");
    press(&mut app, ":e other.scm\n");
    assert_eq!(text(&app.message), "unsaved changes. Use :e! to discard");
    assert!(app.request.is_none());
}

#[test]
fn delete_key_takes_a_count_and_keeps_the_register() {
    let mut app = insert("z\nabcd");
    press(&mut app, "\x1bkyyj0");
    press(&mut app, "2\x04");
    assert_eq!(node_text(&app, 1), "cd");
    assert_eq!(app.register.len(), 1);
    assert_eq!(text(&app.register[0].text), "z");
    press(&mut app, "u");
    assert_eq!(node_text(&app, 1), "abcd");
}

#[test]
fn x_with_a_count_is_one_step_of_undo() {
    let mut app = insert("abcd");
    press(&mut app, "\x1b0");
    press(&mut app, "3x");
    assert_eq!(node_text(&app, 0), "d");
    press(&mut app, "u");
    assert_eq!(node_text(&app, 0), "abcd");
}

#[test]
fn visual_j_with_a_count_extends_by_that_many_nodes() {
    let mut app = insert("a\nb\nc\nd");
    press(&mut app, "\x1bggV2jy");
    assert_eq!(app.register.len(), 3);
    assert_eq!(app.cursor, 0);
    press(&mut app, "G");
    press(&mut app, "v2ky");
    assert_eq!(app.cursor, 1);
}

#[test]
fn visual_indent_by_lines_is_one_step_of_undo() {
    let mut app = insert("f\na\nb");
    press(&mut app, "\x1bggjVj>");
    assert_eq!(app.to_scheme(), "(f a b)");
    assert_eq!(app.mode, Mode::Normal);
    press(&mut app, "u");
    assert_eq!(app.to_scheme(), "f\n\na\n\nb");
}

#[test]
fn pasted_text_in_normal_mode_is_one_step_of_undo() {
    let mut app = insert("a");
    press(&mut app, "\x1b0");
    app.handle_paste("bc");
    assert_eq!(node_text(&app, 0), "bca");
    press(&mut app, "u");
    assert_eq!(node_text(&app, 0), "a");
}

fn node_text(app: &App, index: usize) -> String {
    text(&app.nodes[index].text)
}

fn holds_comment(d: &Datum) -> bool {
    match d {
        Datum::Comment(_) => true,
        Datum::Atom(_) => false,
        Datum::List(items) => items.iter().any(holds_comment),
        Datum::Marker(_, c) => holds_comment(c),
    }
}

#[test]
fn nodes_from_data_is_a_tree_with_a_top_node_per_datum() {
    let reading = read("(define (f x) (g x)) 'a #(1 2) (h (i (j)))").unwrap();
    let nodes = nodes_from(&reading.data);
    assert_eq!(nodes[0].depth, 0);
    for i in 1..nodes.len() {
        assert!(nodes[i].depth <= nodes[i - 1].depth + 1);
    }
    let tops = nodes.iter().filter(|n| n.depth == 0).count();
    assert_eq!(tops, reading.data.len());
    assert_eq!(tops, 4);
}

#[test]
fn comments_come_out_of_expressions() {
    let reading = read("(a ; one\n (b #| two |# c))\n; three\nd").unwrap();
    assert_eq!(reading.hoisted, 2);
    for d in &reading.data {
        match d {
            Datum::Comment(_) => {}
            other => assert!(!holds_comment(other)),
        }
    }
    assert_eq!(reading.data.len(), 5);
}

#[test]
fn symbols_at_the_top_read_and_print_back_as_themselves() {
    for (text, count) in [("x", 1), ("define", 1), ("a->b", 1), ("42", 1), ("a\n\nb", 2), ("x\n\ny\n\nz", 3)] {
        let reading = read(text).unwrap();
        assert_eq!(reading.data.len(), count);
        let mut app = App::new();
        app.nodes = nodes_from(&reading.data);
        assert_eq!(app.nodes.len(), count);
        assert_eq!(app.to_scheme(), text);
    }
}

#[test]
fn undo_with_nothing_to_undo_changes_only_the_message() {
    let mut app = insert("abc");
    press(&mut app, "\x1b");
    app.undo.clear();
    let col = app.cursor_col;
    press(&mut app, "u");
    assert_eq!(app.cursor_col, col);
    assert_eq!(node_text(&app, 0), "abc");
    assert_eq!(text(&app.message), "already at oldest change");
    app.redo.clear();
    app.handle_key(KeyPress { code: Key::Char('r'), ctrl: true, alt: false });
    assert_eq!(app.cursor_col, col);
    assert_eq!(text(&app.message), "already at newest change");
}

#[test]
fn paste_with_an_empty_register_keeps_the_column() {
    let mut app = insert("abc");
    press(&mut app, "\x1b");
    let col = app.cursor_col;
    press(&mut app, "p");
    assert_eq!(app.cursor_col, col);
    assert_eq!(text(&app.message), "nothing yanked");
    assert_eq!(app.to_scheme(), "abc");
}

#[test]
fn indent_then_unindent_gives_the_nodes_back() {
    let mut app = insert("f\na\n\tb\nc");
    press(&mut app, "\x1bggj");
    let before = shape(&app);
    press(&mut app, ">>");
    assert_ne!(shape(&app), before);
    press(&mut app, "<<");
    assert_eq!(shape(&app), before);
    assert_eq!(app.cursor, 1);
}

#[test]
fn x_on_an_empty_node_yanks_it_and_delete_does_not() {
    let mut app = insert("z\n");
    press(&mut app, "\x1bggyyG");
    app.handle_key(KeyPress { code: Key::Delete, ctrl: false, alt: false });
    assert_eq!(app.register.len(), 1);
    assert_eq!(text(&app.register[0].text), "z");
    let mut app = insert("z\n");
    press(&mut app, "\x1bggyyGx");
    assert_eq!(app.register.len(), 1);
    assert_eq!(text(&app.register[0].text), "");
}

#[test]
fn one_line_lists_of_symbols_read_and_print_back() {
    for (text, nodes) in [("(f a)", 2), ("(and a b)", 3), ("(list x y z)", 4)] {
        let reading = read(text).unwrap();
        assert_eq!(reading.data.len(), 1);
        let mut app = App::new();
        app.nodes = nodes_from(&reading.data);
        assert_eq!(app.nodes.len(), nodes);
        assert_eq!(app.nodes[0].depth, 0);
        assert!(app.nodes[1..].iter().all(|n| n.depth == 1));
        assert_eq!(app.to_scheme(), text);
    }
}
