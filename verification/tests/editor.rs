use std::collections::HashMap;

use sedit::app::display::DisplayLine;
use sedit::app::input::Key;
use sedit::app::input::KeyPress;
use sedit::app::io::title;
use sedit::app::App;
use sedit::app::Mode;
use sedit::app::Request;
use sedit::app::VisualKind;
use sedit::node::nodes_from;
use sedit::node::number_width;
use sedit::reader;

use ratatui::layout::Constraint;
use ratatui::layout::Layout;
use ratatui::style::Modifier;
use ratatui::style::Style;
use ratatui::text::Line;
use ratatui::text::Span;
use ratatui::text::Text;
use ratatui::widgets::Block;
use ratatui::widgets::Borders;
use ratatui::widgets::Paragraph;
use ratatui::widgets::Wrap;
use ratatui::Terminal;

/// Files kept in memory: the editor asks for reads and writes, and these
/// tests answer them here.
struct Disk {
    files: HashMap<String, String>,
}

impl Disk {
    fn new() -> Disk {
        Disk { files: HashMap::new() }
    }
}

/// Answers the editor's pending request, if any.
fn serve(app: &mut App, disk: &mut Disk) {
    if let Some(request) = app.request.take() {
        match request {
            Request::Read { path } => {
                let result = match disk.files.get(&path) {
                    Some(text) => Ok(text.clone()),
                    None => Err("No such file or directory (os error 2)".to_string()),
                };
                app.finish_read(&path, result);
            }
            Request::Write { path, text, quit, tree } => {
                disk.files.insert(path.clone(), text);
                app.finish_write(&path, tree, quit, Ok(()));
            }
        }
    }
}

fn plain(code: Key) -> KeyPress {
    KeyPress { code, ctrl: false, alt: false }
}

fn ctrl(c: char) -> KeyPress {
    KeyPress { code: Key::Char(c), ctrl: true, alt: false }
}

fn alt(c: char) -> KeyPress {
    KeyPress { code: Key::Char(c), ctrl: false, alt: true }
}

/// `\t` is Tab, `\n` Enter, `\x08` Shift-Tab, `\x1b` Esc, `\x7f`
/// Backspace, `\x04` Delete.
fn key_of(c: char) -> Key {
    match c {
        '\t' => Key::Tab,
        '\n' => Key::Enter,
        '\x08' => Key::BackTab,
        '\x1b' => Key::Esc,
        '\x7f' => Key::Backspace,
        '\x04' => Key::Delete,
        _ => Key::Char(c),
    }
}

fn press_on(app: &mut App, keys: &str, disk: &mut Disk) {
    for c in keys.chars() {
        app.handle_key(plain(key_of(c)));
        serve(app, disk);
    }
}

fn press(app: &mut App, keys: &str) {
    let mut disk = Disk::new();
    press_on(app, keys, &mut disk);
}

fn key(app: &mut App, code: Key) -> bool {
    app.handle_key(plain(code))
}

/// Normal mode comes first, so `i` is typed before the keys.
fn insert(keys: &str) -> App {
    let mut app = App::new();
    press(&mut app, "i");
    press(&mut app, keys);
    app
}

fn scheme(keys: &str) -> String {
    insert(keys).to_scheme()
}

fn tree(keys: &str) -> String {
    insert(keys).tree_lines().join("\n")
}

fn check(cases: &[(&str, &str)]) {
    for (keys, expected) in cases {
        assert_eq!(scheme(keys), *expected, "\nkeys: {:?}", keys);
    }
}

fn text(chars: &Vec<char>) -> String {
    chars.iter().collect()
}

fn node(app: &App, index: usize) -> String {
    text(&app.nodes[index].text)
}

fn message(app: &App) -> String {
    text(&app.message)
}

fn depths(app: &App) -> Vec<usize> {
    app.nodes.iter().map(|n| n.depth).collect()
}

/// The words as sibling nodes.
fn nodes_app(words: &[&str]) -> App {
    let mut app = App::new();
    press(&mut app, &format!("i{}", words[0]));
    for word in &words[1..] {
        press(&mut app, &format!("\n{}", word));
    }
    press(&mut app, "\x1b");
    app
}

/// Nodes `0` to `count - 1`, one per line.
fn numbered(count: usize) -> App {
    let mut app = App::new();
    press(&mut app, "i0");
    for n in 1..count {
        press(&mut app, &format!("\n{}", n));
    }
    app
}

/// A line of the view with its styles, as the terminal shows it.
fn styled(line: &DisplayLine) -> Line<'static> {
    let dim = Style::default().add_modifier(Modifier::DIM);
    let reversed = Style::default().add_modifier(Modifier::REVERSED);
    let mut spans = Vec::new();
    if let Some(number) = &line.number {
        spans.push(Span::styled(text(number), dim));
    }
    if line.left_more {
        spans.push(Span::styled("‹", dim));
    }
    for (k, c) in line.cells.iter().enumerate() {
        let style = if line.marked[k] { reversed } else { Style::default() };
        spans.push(Span::styled(c.to_string(), style));
    }
    if line.right_more {
        spans.push(Span::styled("›", dim));
    }
    if line.whole {
        spans = spans.into_iter().map(|s| s.patch_style(reversed)).collect();
    }
    Line::from(spans)
}

/// Draws the editor as the program does.
fn draw(terminal: &mut Terminal<ratatui::backend::TestBackend>, app: &mut App) {
    terminal
        .draw(|frame| {
            let areas = Layout::vertical([Constraint::Min(0), Constraint::Length(1)]).split(frame.area());
            app.prepare_view(areas[0].width, areas[0].height);
            let lines: Vec<Line> = app.tree_display().iter().map(styled).collect();
            let mut paragraph = Paragraph::new(Text::from(lines)).scroll((app.scroll as u16, 0));
            if app.source_mode {
                paragraph = paragraph.wrap(Wrap { trim: false });
            }
            let paragraph = paragraph.block(Block::default().title(title(app)).borders(Borders::ALL));
            frame.render_widget(paragraph, areas[0]);
            frame.render_widget(Paragraph::new(sedit::app::display::status_text(app)), areas[1]);
        })
        .unwrap();
}

/// Draws, and gives the rows inside the frame that are not blank.
fn screen(terminal: &mut Terminal<ratatui::backend::TestBackend>, app: &mut App) -> Vec<String> {
    draw(terminal, app);
    let buffer = terminal.backend().buffer();
    let mut lines = Vec::new();
    for y in 1..buffer.area.height - 2 {
        let mut line = String::new();
        for x in 1..buffer.area.width - 1 {
            line.push_str(buffer[(x, y)].symbol());
        }
        let line = line.trim_end().to_string();
        if !line.is_empty() {
            lines.push(line);
        }
    }
    lines
}

fn terminal(width: u16, height: u16) -> Terminal<ratatui::backend::TestBackend> {
    Terminal::new(ratatui::backend::TestBackend::new(width, height)).unwrap()
}

#[test]
fn notation() {
    check(&[
        ("", "()"),
        ("x", "x"),
        ("f\n\t", "(f ())"),
        ("f\n\ta", "(f a)"),
        ("+\n\t1\n2", "(+ 1 2)"),
        ("\n\ta\nb", "(a b)"),
        ("a\n\t.\nb", "(a . b)"),
        ("f\n\ta\n.\nrest", "(f a . rest)"),
    ]);
}

#[test]
fn tests_markers() {
    check(&[
        ("'\n\ta\nb", "'(a b)"),
        ("`\n\ta\n,b", "`(a ,b)"),
        (",@\n\ta\nb", ",@(a b)"),
        ("#\n\t1\n2", "#(1 2)"),
        ("#u8\n\t1\n2", "#u8(1 2)"),
        ("#;\n\ta\nb", "#;(a b)"),
        ("#0=\n\ta\nb", "#0=(a b)"),
        ("'\n\t1\n2\n3", "'(1 2 3)"),
        ("'\n\tx", "'(x)"),
        ("'\n\t", "'()"),
        ("`\n\ta\n`\n\tb\n,c", "`(a `(b ,c))"),
        ("\n\t'a\nb", "('a b)"),
    ]);
}

#[test]
fn hash_atoms() {
    check(&[("#t", "#t"), ("list\n\t#t\n#f\n#\\a", "(list #t #f #\\a)"), ("#!fold-case", "#!fold-case")]);
}

#[test]
fn body_forms() {
    check(&[
        ("define\n\tsquare\n\tx\n\x08*\n\tx\nx", "(define (square x)\n  (* x x))"),
        ("lambda\n\t\n\tx\n\x08*\n\tx\nx", "(lambda (x)\n  (* x x))"),
        ("when\n\ta\nb\nc", "(when a\n  b\n  c)"),
        ("begin\n\ta\nb", "(begin\n  a\n  b)"),
        ("let\n\t\n\tx\n\t1\n\x08y\n\t2\n\x08\x08body", "(let ((x 1) (y 2))\n  body)"),
        ("let\n\tloop\n\n\ti\n\t0\n\x08\x08body", "(let loop ((i 0))\n  body)"),
        ("do\n\t\n\ti\n\t0\n\x08\x08\n\t=\n\ti\n5\n\x08\x08body", "(do ((i 0)) ((= i 5))\n  body)"),
        ("case\n\tx\n\n\t1\n\t2\n\x08'a\n\x08\n\telse\n'b", "(case x\n  ((1 2) 'a)\n  (else 'b))"),
    ]);
}

#[test]
fn align_forms() {
    check(&[
        ("cond\n\t\n\t<\n\tx\n2\n\x081\n\x08\n\t>\n\tx\n2\n\x08-1", "(cond ((< x 2) 1)\n      ((> x 2) -1))"),
        ("cond\n\t\n\tassv\n\tk\nal\n\x08=>\ncdr\n\x08\n\telse\n#f", "(cond ((assv k al) => cdr)\n      (else #f))"),
        ("and\n\ta\nb", "(and a b)"),
        ("or\n\ta\nb", "(or a b)"),
        (
            "some-quite-long-function-name\n\
             \taaaaaaaaaaaaaaaaaaaaaaaaaaa\n\
             bbbbbbbbbbbbbbbbbbbbbbbbbbb",
            "(some-quite-long-function-name \
             aaaaaaaaaaaaaaaaaaaaaaaaaaa\n\
             \x20                              \
             bbbbbbbbbbbbbbbbbbbbbbbbbbb)",
        ),
    ]);
}

#[test]
fn toplevel() {
    check(&[("a\nb", "a\n\nb"), ("define\n\ta\n1\n\x08define\n\tb\n2", "(define a\n  1)\n\n(define b\n  2)")]);
}

#[test]
fn marker_degenerate_shapes() {
    check(&[("'", "'()"), ("'\n\ta\n\tb", "'((a b))")]);
}

#[test]
fn tree_view() {
    assert_eq!(
        tree("cond\n\t\n\t<\n\tx\n2\n\x081\n\x08\n\t>\n\tx\n2\n\x08-1"),
        "cond\n\
         ├── ◦\n\
         │   ├── <\n\
         │   │   ├── x\n\
         │   │   └── 2\n\
         │   └── 1\n\
         └── ◦\n\
         \x20   ├── >\n\
         \x20   │   ├── x\n\
         \x20   │   └── 2\n\
         \x20   └── -1"
    );
    assert_eq!(
        tree("`\n\ta\n\t`\n\tb\n\t,c"),
        "`\n\
         └── a\n\
         \x20   └── `\n\
         \x20       └── b\n\
         \x20           └── ,c"
    );
    assert_eq!(
        tree("let\n\t\n\tx\n\t1\n\x08y\n\t2\n\x08\x08body"),
        "let\n\
         ├── ◦\n\
         │   ├── x\n\
         │   │   └── 1\n\
         │   └── y\n\
         │       └── 2\n\
         └── body"
    );
}

#[test]
fn normal_mode() {
    let mut app = insert("f\n\ta\n\tb");
    press(&mut app, "\x1b");
    press(&mut app, "kkdd");
    assert_eq!(app.to_scheme(), "(a b)");
    let mut app = insert("f\na");
    press(&mut app, "\x1b>>");
    assert_eq!(app.to_scheme(), "(f a)");
    press(&mut app, "<<");
    assert_eq!(app.to_scheme(), "f\n\na");
    let mut app = insert("a");
    press(&mut app, "\x1bob");
    assert_eq!(app.to_scheme(), "a\n\nb");
    let mut app = insert("a");
    press(&mut app, "\x1bOb");
    assert_eq!(app.to_scheme(), "b\n\na");
    let mut app = insert("abc");
    press(&mut app, "\x1b0x");
    assert_eq!(app.to_scheme(), "bc");
    let mut app = insert("abc");
    press(&mut app, "\x1b0$icut-");
    assert_eq!(app.to_scheme(), "abccut-");
    let mut app = insert("a\nb\nc");
    press(&mut app, "\x1bggIX");
    assert_eq!(app.to_scheme(), "Xa\n\nb\n\nc");
    press(&mut app, "\x1bGA!");
    assert_eq!(app.to_scheme(), "Xa\n\nb\n\nc!");
}

/// The cell under the cursor, and the whole line as drawn.
fn cell_under_cursor(app: &App) -> String {
    let line = &app.tree_display()[app.cursor];
    let k = line.marked.iter().position(|m| *m).expect("the cursor's cell was not found");
    line.cells[k].to_string()
}

fn cursor_line(app: &App) -> String {
    let line = &app.tree_display()[app.cursor];
    let mut out = String::new();
    if let Some(number) = &line.number {
        out.push_str(&text(number));
    }
    if line.left_more {
        out.push('‹');
    }
    out.push_str(&text(&line.cells));
    if line.right_more {
        out.push('›');
    }
    out
}

#[test]
fn cursor_cell() {
    let mut app = insert("abc");
    press(&mut app, "\x1b0");
    assert_eq!(cell_under_cursor(&app), "a");
    assert_eq!(cursor_line(&app), "abc");
    press(&mut app, "l");
    assert_eq!(cell_under_cursor(&app), "b");
    assert_eq!(cursor_line(&app), "abc");
    press(&mut app, "$");
    assert_eq!(cell_under_cursor(&app), " ");
    assert_eq!(cursor_line(&app), "abc ");
    let app = App::new();
    assert_eq!(cell_under_cursor(&app), "◦");
    assert_eq!(cursor_line(&app), "◦");
}

#[test]
fn multibyte() {
    let mut app = insert("\"日本語\"");
    assert_eq!(app.to_scheme(), "\"日本語\"");
    press(&mut app, "\x1bhhx");
    assert_eq!(app.to_scheme(), "\"日本\"");
    press(&mut app, "i\x7f");
    assert_eq!(app.to_scheme(), "\"日\"");
}

#[test]
fn move_between_nodes_lands_on_char_boundary() {
    let mut app = nodes_app(&["1234567", "審査基準"]);
    app.cursor = 0;
    press(&mut app, "$j");
    assert_eq!(app.cursor, 1);
    assert!(app.cursor_col <= app.nodes[1].text.len());
    press(&mut app, "iX");
    assert!(node(&app, 1).contains('X'));
}

#[test]
fn arrow_move_between_nodes_lands_on_char_boundary() {
    let mut app = nodes_app(&["1234567", "審査基準"]);
    app.cursor = 0;
    press(&mut app, "$");
    key(&mut app, Key::Down);
    assert_eq!(app.cursor, 1);
    assert!(app.cursor_col <= app.nodes[1].text.len());
    press(&mut app, "iX");
    assert!(node(&app, 1).contains('X'));
}

#[test]
fn commands() {
    let mut disk = Disk::new();
    let name = "/tmp/seditor-commands.scm".to_string();
    let mut app = insert("f\n\ta");
    press_on(&mut app, "\x1b", &mut disk);
    assert!(app.modified);
    press_on(&mut app, ":w\n", &mut disk);
    assert_eq!(message(&app), "no file name");
    assert!(app.modified);
    press_on(&mut app, &format!(":w {}\n", name), &mut disk);
    assert!(!app.modified);
    assert_eq!(disk.files[&name], "(f a)\n");
    assert_eq!(app.path, Some(name.clone()));
    press_on(&mut app, "ib\x1b", &mut disk);
    assert!(app.modified);
    assert!(key(&mut app, Key::Char(':')));
    press_on(&mut app, "q\n", &mut disk);
    assert!(!app.quit);
    assert!(message(&app).contains(":q!"));
    press_on(&mut app, ":q!\n", &mut disk);
    assert!(app.quit);
    let mut app = insert("a");
    press_on(&mut app, "\x1b:q!\x1b", &mut disk);
    assert!(!app.quit);
    assert_eq!(text(&app.command), "");
    press_on(&mut app, ":zzz\n", &mut disk);
    assert_eq!(message(&app), "unknown command: zzz");
    let mut app = insert("x");
    press_on(&mut app, &format!("\x1b:wq {}\n", name), &mut disk);
    assert!(app.quit);
    assert_eq!(disk.files[&name], "x\n");
}

/// Reads the text and prints it again.
fn roundtrip(source: &str) -> String {
    let reading = reader::read(source).unwrap();
    let mut app = App::new();
    app.nodes = nodes_from(&reading.data);
    app.to_scheme()
}

fn assert_stable(source: &str) {
    assert_eq!(roundtrip(source), source, "\nfirst time");
    assert_eq!(roundtrip(&roundtrip(source)), source, "\nsecond time");
}

#[test]
fn read_back() {
    for source in [
        "x",
        "()",
        "(f a)",
        "(f ())",
        "(f)",
        "(a . b)",
        "(f a . rest)",
        "'x",
        "'`x",
        "'()",
        "'(x)",
        "'(a b)",
        "'(1 2 3)",
        "'(a (b c) d)",
        "`(a ,b)",
        ",@(a b)",
        "#(1 2)",
        "#u8(1 2)",
        "#;(a b)",
        "#0=(a b)",
        "`(a `(b ,c))",
        "('a b)",
        "(list #t #f #\\a)",
        "\"日本語\"",
        "(f \"a b\" |c d|)",
        "(define (square x)\n  (* x x))",
        "(cond ((< x 2) 1)\n      ((> x 2) -1))",
        "(let ((x 1) (y 2))\n  body)",
        "(let loop ((i 0))\n  body)",
        "(do ((i 0)) ((= i 5))\n  body)",
        "(case x\n  ((1 2) 'a)\n  (else 'b))",
        "(when a\n  b\n  c)",
        "(begin\n  a\n  b)",
        "(lambda (x)\n  (* x x))",
        "(and a b)",
        "a\n\nb",
        "; head\n\n(define a\n  1)",
    ] {
        assert_stable(source);
    }
}

#[test]
fn hoisted_comments() {
    let reading = reader::read("(a ; note\n b)").unwrap();
    assert_eq!(reading.hoisted, 1);
    let mut app = App::new();
    app.nodes = nodes_from(&reading.data);
    assert_eq!(app.to_scheme(), "; note\n\n(a b)");
}

#[test]
fn edit_command() {
    let mut disk = Disk::new();
    let name = "/tmp/seditor-edit.scm".to_string();
    disk.files.insert(name.clone(), "(define (f x)\n  (+ x 1))\n".to_string());
    let mut app = App::new();
    press_on(&mut app, &format!(":e {}\n", name), &mut disk);
    assert_eq!(app.to_scheme(), "(define (f x)\n  (+ x 1))");
    assert!(!app.modified);
    assert_eq!(app.path, Some(name.clone()));
    press_on(&mut app, "ib\x1b:e\n", &mut disk);
    assert!(message(&app).contains(":e!"));
    press_on(&mut app, ":e!\n", &mut disk);
    assert_eq!(app.to_scheme(), "(define (f x)\n  (+ x 1))");
    disk.files.insert(name.clone(), "(a".to_string());
    press_on(&mut app, ":e!\n", &mut disk);
    assert!(message(&app).contains("unclosed parenthesis"));
}

#[test]
fn undo_redo() {
    let mut app = insert("abc");
    press(&mut app, "\x1b");
    assert_eq!(app.to_scheme(), "abc");
    press(&mut app, "u");
    assert_eq!(app.to_scheme(), "()");
    assert_eq!(app.undo.len(), 0);
    app.handle_key(ctrl('r'));
    assert_eq!(app.to_scheme(), "abc");
    let mut app = insert("a");
    press(&mut app, "\x1b");
    let depth = app.undo.len();
    press(&mut app, "i\x1b");
    assert_eq!(app.undo.len(), depth);
    press(&mut app, "$x");
    assert_eq!(app.undo.len(), depth);
    let mut app = insert("f\n\ta\nb");
    press(&mut app, "\x1b");
    assert_eq!(app.to_scheme(), "(f a b)");
    press(&mut app, "dd");
    assert_eq!(app.to_scheme(), "(f a)");
    press(&mut app, "<<");
    assert_eq!(app.to_scheme(), "f\n\na");
    press(&mut app, "uu");
    assert_eq!(app.to_scheme(), "(f a b)");
    press(&mut app, "dd");
    app.handle_key(ctrl('r'));
    assert_eq!(app.to_scheme(), "(f a)");
    assert!(app.redo.is_empty());
    let mut app = insert("abc\nx");
    press(&mut app, "\x1bdd");
    assert_eq!(app.cursor, 0);
    press(&mut app, "u");
    assert_eq!(app.cursor, 1);
    let mut app = App::new();
    press(&mut app, "u");
    assert_eq!(message(&app), "already at oldest change");
    app.handle_key(ctrl('r'));
    assert_eq!(message(&app), "already at newest change");
}

#[test]
fn edit_clears_history() {
    let mut disk = Disk::new();
    let name = "/tmp/seditor-undo.scm".to_string();
    disk.files.insert(name.clone(), "(a b)\n".to_string());
    let mut app = insert("x");
    press_on(&mut app, "\x1b", &mut disk);
    assert!(!app.undo.is_empty());
    press_on(&mut app, &format!(":e! {}\n", name), &mut disk);
    assert_eq!(app.to_scheme(), "(a b)");
    assert!(app.undo.is_empty());
    assert!(app.redo.is_empty());
}

#[test]
fn delete_on_empty_node() {
    let mut app = insert("f\n\t\n\ta");
    press(&mut app, "\x1b");
    assert_eq!(app.to_scheme(), "(f (a))");
    press(&mut app, "kx");
    assert_eq!(app.to_scheme(), "(f a)");
    let mut app = insert("f\n\t");
    assert_eq!(app.to_scheme(), "(f ())");
    press(&mut app, "\x04");
    assert_eq!(app.to_scheme(), "f");
    let mut app = insert("abc\n\t");
    assert_eq!(app.to_scheme(), "(abc ())");
    press(&mut app, "\x7f");
    assert_eq!(app.to_scheme(), "abc");
    assert_eq!(app.cursor, 0);
    assert_eq!(app.cursor_col, 3);
    press(&mut app, "d");
    assert_eq!(app.to_scheme(), "abcd");
    let mut app = insert("a\nb\n\t");
    assert_eq!(app.to_scheme(), "a\n\n(b ())");
    press(&mut app, "\x7f");
    assert_eq!(app.to_scheme(), "a\n\nb");
    assert_eq!(app.cursor, 1);
    assert_eq!(app.cursor_col, 1);
    let mut app = insert("\nx");
    press(&mut app, "\x1bkk");
    assert_eq!(app.cursor, 0);
    press(&mut app, "i\x7f");
    assert_eq!(app.to_scheme(), "x");
    assert_eq!(app.cursor_col, 0);
    press(&mut app, "\x1bu");
    assert_eq!(app.to_scheme(), "()\n\nx");
}

#[test]
fn yank_paste() {
    let mut app = insert("f\n\ta\nb");
    assert_eq!(app.to_scheme(), "(f a b)");
    press(&mut app, "\x1bkyy");
    assert_eq!(message(&app), "yanked 1 node(s)");
    press(&mut app, "p");
    assert_eq!(app.to_scheme(), "(f a a b)");
    assert_eq!(app.cursor, 2);
    press(&mut app, "P");
    assert_eq!(app.to_scheme(), "(f a a a b)");
    let mut app = insert("f\n\ta");
    press(&mut app, "\x1byy2p");
    assert_eq!(app.to_scheme(), "(f a a a)");
    let mut app = insert("f\n\ta\n\tb\n\x08c");
    press(&mut app, "\x1b");
    assert_eq!(app.to_scheme(), "(f (a b) c)");
    press(&mut app, "gg3yyGp");
    assert_eq!(app.to_scheme(), "(f (a b) c (f (a b)))");
    let mut app = insert("a");
    press(&mut app, "\x1bp");
    assert_eq!(message(&app), "nothing yanked");
}

#[test]
fn paste_replaces_empty_node() {
    let mut app = insert("f\n\ta\n");
    assert_eq!(app.to_scheme(), "(f a ())");
    press(&mut app, "\x1bkyyjp");
    assert_eq!(app.to_scheme(), "(f a a)");
    assert_eq!(app.cursor, 2);
    let mut app = insert("f\n\ta\n\n\tb");
    press(&mut app, "\x1b");
    assert_eq!(app.to_scheme(), "(f a (b))");
    press(&mut app, "ggjyyjp");
    assert_eq!(app.to_scheme(), "(f a () (a b))");
}

#[test]
fn paste_interrupts() {
    let mut app = insert("f\n\ta\nb");
    press(&mut app, "\x1b");
    assert_eq!(app.to_scheme(), "(f a b)");
    press(&mut app, "kyyp");
    assert_eq!(app.to_scheme(), "(f a a b)");
    assert_eq!(app.cursor, 2);
    let mut app = insert("f\n\ta\n\tb");
    press(&mut app, "\x1b");
    assert_eq!(app.to_scheme(), "(f (a b))");
    press(&mut app, "yykp");
    assert_eq!(app.to_scheme(), "(f a (b b))");
}

#[test]
fn counts() {
    let mut app = insert("a\nb\nc\nd");
    press(&mut app, "\x1bgg2j");
    assert_eq!(app.cursor, 2);
    press(&mut app, "2k");
    assert_eq!(app.cursor, 0);
    press(&mut app, "3G");
    assert_eq!(app.cursor, 2);
    press(&mut app, "G");
    assert_eq!(app.cursor, 3);
    press(&mut app, "gg10j");
    assert_eq!(app.cursor, 3);
    let mut app = insert("abc");
    press(&mut app, "\x1b0");
    assert_eq!(app.cursor_col, 0);
    assert_eq!(app.count, None);
    press(&mut app, "2x");
    assert_eq!(app.to_scheme(), "c");
    press(&mut app, "3\x1b");
    assert_eq!(app.count, None);
}

#[test]
fn delete_repairs_depth() {
    let mut app = insert("a\n\tb\n\tc\n\td");
    press(&mut app, "\x1b");
    assert_eq!(app.to_scheme(), "(a (b (c d)))");
    press(&mut app, "ggj2dd");
    assert_eq!(app.to_scheme(), "(a d)");
    assert_eq!(app.nodes[1].depth, 1);
    press(&mut app, "p");
    assert_eq!(app.to_scheme(), "(a d (b c))");
}

#[test]
fn scrolling() {
    let mut app = numbered(20);
    press(&mut app, "\x1b");
    assert_eq!(app.nodes.len(), 20);
    app.height = 5;
    app.cursor = 0;
    app.follow_cursor();
    assert_eq!(app.scroll, 0);
    app.cursor = 4;
    app.follow_cursor();
    assert_eq!(app.scroll, 0);
    app.cursor = 5;
    app.follow_cursor();
    assert_eq!(app.scroll, 1);
    app.cursor = 0;
    app.follow_cursor();
    assert_eq!(app.scroll, 0);
    app.handle_key(ctrl('f'));
    assert_eq!((app.scroll, app.cursor), (3, 3));
    app.handle_key(ctrl('d'));
    assert_eq!((app.scroll, app.cursor), (5, 5));
    app.handle_key(ctrl('b'));
    assert_eq!((app.scroll, app.cursor), (2, 2));
    app.handle_key(ctrl('u'));
    assert_eq!((app.scroll, app.cursor), (0, 0));
    app.handle_key(ctrl('b'));
    assert_eq!(app.cursor, 0);
    for _ in 0..10 {
        app.handle_key(ctrl('f'));
    }
    assert_eq!(app.cursor, 19);
}

#[test]
fn paging_on_screen() {
    let mut terminal = terminal(20, 10);
    let mut app = numbered(20);
    press(&mut app, "\x1bgg");
    let top = |t: &mut Terminal<ratatui::backend::TestBackend>, app: &mut App| screen(t, app)[0].clone();
    assert_eq!(top(&mut terminal, &mut app), "0");
    assert_eq!(app.height, 7);
    app.handle_key(ctrl('b'));
    assert_eq!(top(&mut terminal, &mut app), "0");
    app.handle_key(ctrl('f'));
    assert_eq!(top(&mut terminal, &mut app), "5");
    app.handle_key(ctrl('f'));
    assert_eq!(top(&mut terminal, &mut app), "10");
    app.handle_key(ctrl('b'));
    assert_eq!(top(&mut terminal, &mut app), "5");
    app.handle_key(ctrl('d'));
    assert_eq!(top(&mut terminal, &mut app), "8");
    app.handle_key(ctrl('u'));
    assert_eq!(top(&mut terminal, &mut app), "5");
    for _ in 0..10 {
        app.handle_key(ctrl('f'));
    }
    assert_eq!(top(&mut terminal, &mut app), "13");
    assert_eq!(app.cursor, 19);
    press(&mut app, "gg");
    assert_eq!(top(&mut terminal, &mut app), "0");
    for _ in 0..7 {
        press(&mut app, "j");
    }
    assert_eq!(top(&mut terminal, &mut app), "1");
    app.toggle_source_view();
    screen(&mut terminal, &mut app);
    app.handle_key(ctrl('f'));
    assert!(app.scroll > 0);
}

#[test]
fn page_keys() {
    let mut terminal = terminal(20, 10);
    let mut app = numbered(20);
    press(&mut app, "\x1bgg");
    let top = |t: &mut Terminal<ratatui::backend::TestBackend>, app: &mut App| screen(t, app)[0].clone();
    assert_eq!(top(&mut terminal, &mut app), "0");
    key(&mut app, Key::PageDown);
    assert_eq!(top(&mut terminal, &mut app), "5");
    key(&mut app, Key::PageDown);
    assert_eq!(top(&mut terminal, &mut app), "10");
    key(&mut app, Key::PageUp);
    assert_eq!(top(&mut terminal, &mut app), "5");
    press(&mut app, "i");
    key(&mut app, Key::PageDown);
    assert_eq!(top(&mut terminal, &mut app), "10");
}

#[test]
fn line_numbers() {
    let mut terminal = terminal(30, 8);
    let mut app = App::new();
    press(&mut app, "if\n\ta\nb\x1b");
    assert_eq!(app.to_scheme(), "(f a b)");
    assert_eq!(screen(&mut terminal, &mut app)[0], "f");
    press(&mut app, ":set number\n");
    assert!(app.number);
    assert_eq!(screen(&mut terminal, &mut app), vec!["  1 f", "  2 ├── a", "  3 └── b"]);
    press(&mut app, ":set nonu\n");
    assert!(!app.number);
    press(&mut app, ":set nu!\n");
    assert!(app.number);
    press(&mut app, ":set nu!\n");
    assert!(!app.number);
    press(&mut app, ":set nu\n");
    assert!(app.number);
    press(&mut app, ":set nonumber number\n");
    assert!(app.number);
    press(&mut app, ":set zzz\n");
    assert_eq!(message(&app), "unknown setting: zzz");
    press(&mut app, ":set\n");
    assert_eq!(message(&app), "no setting specified");
    app.toggle_source_view();
    assert_eq!(screen(&mut terminal, &mut app), vec!["  1 (f a b)"]);
}

#[test]
fn number_width_is_stable() {
    assert_eq!(number_width(1), 4);
    assert_eq!(number_width(9), 4);
    assert_eq!(number_width(10), 4);
    assert_eq!(number_width(999), 4);
    assert_eq!(number_width(1000), 5);
}

#[test]
fn goto_line() {
    let mut terminal = terminal(20, 10);
    let mut app = numbered(20);
    press(&mut app, "\x1b");
    press(&mut app, ":1\n");
    assert_eq!(app.cursor, 0);
    press(&mut app, ":12\n");
    assert_eq!(app.cursor, 11);
    press(&mut app, ":set number\n");
    assert_eq!(screen(&mut terminal, &mut app)[6], " 12 11");
    press(&mut app, ":0\n");
    assert_eq!(app.cursor, 0);
    press(&mut app, ":$\n");
    assert_eq!(app.cursor, 19);
    press(&mut app, ":1\n:999\n");
    assert_eq!(app.cursor, 19);
    app.toggle_source_view();
    press(&mut app, ":10\n");
    assert_eq!(app.cursor, 9);
}

#[test]
fn search() {
    let mut app = App::new();
    press(&mut app, "iapple");
    for word in ["Banana", "cherry", "apple2", "date"] {
        press(&mut app, &format!("\n{}", word));
    }
    press(&mut app, "\x1b");
    assert_eq!(app.nodes.len(), 5);
    app.cursor = 0;
    press(&mut app, "/banana\n");
    assert_eq!(app.cursor, 1);
    press(&mut app, "/^date$\n");
    assert_eq!(app.cursor, 4);
    press(&mut app, "/apple\n");
    assert_eq!(app.cursor, 0);
    assert!(message(&app).contains("wrapped"));
    press(&mut app, "n");
    assert_eq!(app.cursor, 3);
    assert!(!message(&app).contains("wrapped"));
    let mut app2 = insert("x1");
    for word in ["a", "b", "x2", "c", "x3", "d"] {
        press(&mut app2, &format!("\n{}", word));
    }
    press(&mut app2, "\x1b");
    app2.cursor = 0;
    press(&mut app2, "/x\n");
    assert_eq!(app2.cursor, 3);
    press(&mut app2, "N");
    assert_eq!(app2.cursor, 0);
    press(&mut app2, "n");
    assert_eq!(app2.cursor, 3);
    app.cursor = 4;
    press(&mut app, "*");
    assert_eq!(app.cursor, 4);
    app.cursor = 2;
    press(&mut app, "?apple\n");
    assert_eq!(app.cursor, 0);
    app.cursor = 2;
    press(&mut app, "/nonexistentxyz\n");
    assert_eq!(app.cursor, 2);
    assert!(message(&app).contains("not found"));
    app.cursor = 2;
    press(&mut app, "/[\n");
    assert_eq!(app.cursor, 2);
    assert!(message(&app).contains("invalid"));
    press(&mut app, "/apple");
    assert_eq!(app.mode, Mode::Search);
    press(&mut app, "\x1b");
    assert_eq!(app.mode, Mode::Normal);
    assert_eq!(app.cursor, 2);
}

#[test]
fn search_vim_pattern_translation() {
    let mut app = insert("start");
    for word in ["lis", "list?", "a(b)c", "a/b"] {
        press(&mut app, &format!("\n{}", word));
    }
    press(&mut app, "\x1b");
    assert_eq!(app.nodes.len(), 5);
    app.cursor = 0;
    press(&mut app, "/list?\n");
    assert_eq!(app.cursor, 2);
    app.cursor = 0;
    press(&mut app, "/list\\?\n");
    assert_eq!(app.cursor, 1);
    app.cursor = 0;
    press(&mut app, "/a(b)c\n");
    assert_eq!(app.cursor, 3);
    app.cursor = 0;
    press(&mut app, "/a\\/b\n");
    assert_eq!(app.cursor, 4);
    app.cursor = 0;
    press(&mut app, "/list\\=\n");
    assert_eq!(app.cursor, 1);
    let mut app3 = insert("123");
    press(&mut app3, "\nword");
    press(&mut app3, "\x1b");
    app3.cursor = 0;
    press(&mut app3, "/\\a\n");
    assert_eq!(app3.cursor, 1);
}

#[test]
fn subtree_yank_cut() {
    let mut app = insert("cond\n\t\n\t<\n\tx\n2\n\x081\n\x08\n\telse\n0");
    press(&mut app, "\x1b");
    assert_eq!(app.to_scheme(), "(cond ((< x 2) 1)\n      (else 0))");
    press(&mut app, ":2\nY");
    assert_eq!(message(&app), "yanked 5 node(s)");
    press(&mut app, ":7\nP");
    assert_eq!(app.to_scheme(), "(cond ((< x 2) 1)\n      ((< x 2) 1)\n      (else 0))");
    press(&mut app, "D");
    assert_eq!(app.to_scheme(), "(cond ((< x 2) 1)\n      (else 0))");
    press(&mut app, "P");
    assert_eq!(app.to_scheme(), "(cond ((< x 2) 1)\n      ((< x 2) 1)\n      (else 0))");
    let mut app = insert("f\n\ta\nb\nc");
    press(&mut app, "\x1bgg");
    press(&mut app, "j3Y");
    assert_eq!(message(&app), "yanked 1 node(s)");
    press(&mut app, "D");
    assert_eq!(app.to_scheme(), "(f b c)");
    let mut app = insert("f\n\ta\nb");
    press(&mut app, "\x1bggD");
    assert_eq!(app.to_scheme(), "()");
    press(&mut app, "u");
    assert_eq!(app.to_scheme(), "(f a b)");
}

#[test]
fn subtree_indent() {
    let mut app = insert("f\n\ta\n\tb");
    press(&mut app, "\x1b");
    assert_eq!(app.to_scheme(), "(f (a b))");
    press(&mut app, "k<<");
    assert_eq!(app.to_scheme(), "f\n\n(a b)");
    assert_eq!(depths(&app), vec![0, 0, 1]);
    let mut app = insert("f\na\n\tb");
    press(&mut app, "\x1b");
    assert_eq!(app.to_scheme(), "f\n\n(a b)");
    press(&mut app, "k>>");
    assert_eq!(app.to_scheme(), "(f (a b))");
    assert_eq!(depths(&app), vec![0, 1, 2]);
    press(&mut app, "\x08");
    assert_eq!(app.to_scheme(), "f\n\n(a b)");
    press(&mut app, "\t");
    assert_eq!(app.to_scheme(), "(f (a b))");
    let mut app = insert("f\n\ta");
    press(&mut app, "\x1bk>>");
    assert_eq!(app.to_scheme(), "(f a)");
    let mut app = insert("a\nb");
    press(&mut app, "\x1bgg<<");
    assert_eq!(app.to_scheme(), "a\n\nb");
}

#[test]
fn insert_mode_indent_is_single_line() {
    let mut app = insert("f\n\ta\n\tb");
    press(&mut app, "\x1b");
    assert_eq!(app.to_scheme(), "(f (a b))");
    press(&mut app, "ki\x08");
    assert_eq!(depths(&app), vec![0, 0, 2]);
}

#[test]
fn enter_splits_text() {
    let mut app = insert("abc");
    press(&mut app, "\x1bhi\n");
    assert_eq!(app.to_scheme(), "ab\n\nc");
    assert_eq!(app.cursor, 1);
    assert_eq!(app.cursor_col, 0);
    let mut app = insert("abc");
    press(&mut app, "\n");
    assert_eq!(app.to_scheme(), "abc\n\n()");
    let mut app = insert("abc");
    press(&mut app, "\x1b0i\n");
    assert_eq!(app.to_scheme(), "()\n\nabc");
}

#[test]
fn end_key_moves_to_end() {
    let mut app = insert("abc");
    press(&mut app, "\x1b0i");
    assert_eq!(app.cursor_col, 0);
    key(&mut app, Key::End);
    assert_eq!(app.cursor_col, 3);
}

#[test]
fn backspace_joins_with_previous() {
    let mut app = insert("ab\nc");
    assert_eq!(app.to_scheme(), "ab\n\nc");
    press(&mut app, "\x1b0i");
    press(&mut app, "\x7f");
    assert_eq!(app.to_scheme(), "abc");
    assert_eq!(app.cursor, 0);
    assert_eq!(app.cursor_col, 2);
    let mut app = insert("f\n\ta\n\x08b\n\tc");
    press(&mut app, "\x1b");
    assert_eq!(app.to_scheme(), "(f a)\n\n(b c)");
    press(&mut app, ":3\n0i");
    press(&mut app, "\x7f");
    assert_eq!(app.to_scheme(), "(f ab c)");
    let mut app = insert("a");
    press(&mut app, "\x1b0i\x7f");
    assert_eq!(app.to_scheme(), "a");
}

#[test]
fn home_key_moves_to_start() {
    let mut app = insert("abc");
    assert_eq!(app.cursor_col, 3);
    key(&mut app, Key::Home);
    assert_eq!(app.cursor_col, 0);
}

#[test]
fn delete_joins_with_next() {
    let mut app = insert("ab\nc");
    assert_eq!(app.to_scheme(), "ab\n\nc");
    press(&mut app, "\x1bggi");
    key(&mut app, Key::End);
    key(&mut app, Key::Delete);
    assert_eq!(app.to_scheme(), "abc");
    assert_eq!(app.cursor, 0);
    assert_eq!(app.cursor_col, 2);
    let mut app = insert("f\n\ta\n\x08b\n\tc");
    press(&mut app, "\x1b");
    assert_eq!(app.to_scheme(), "(f a)\n\n(b c)");
    press(&mut app, ":2\ni");
    key(&mut app, Key::End);
    key(&mut app, Key::Delete);
    assert_eq!(app.to_scheme(), "(f ab c)");
    let mut app = insert("a");
    key(&mut app, Key::Delete);
    assert_eq!(app.to_scheme(), "a");
}

#[test]
fn delete_key_in_normal_mode() {
    let mut app = insert("abc");
    press(&mut app, "\x1b0");
    key(&mut app, Key::Delete);
    assert_eq!(app.to_scheme(), "bc");
    press(&mut app, "2");
    key(&mut app, Key::Delete);
    assert_eq!(app.to_scheme(), "()");
    let mut app = insert("f\n\ta\n");
    press(&mut app, "\x1b");
    assert_eq!(app.to_scheme(), "(f a ())");
    key(&mut app, Key::Delete);
    assert_eq!(app.to_scheme(), "(f a)");
}

#[test]
fn alt_key_splits_into_esc_and_key() {
    let mut app = insert("abc");
    app.handle_key(alt(':'));
    assert_eq!(app.mode, Mode::Command);
    assert_eq!(app.to_scheme(), "abc");
    let mut app = insert("abc");
    press(&mut app, "\x1b0");
    app.handle_key(alt('i'));
    assert_eq!(app.mode, Mode::Insert);
    press(&mut app, "X");
    assert_eq!(app.to_scheme(), "Xabc");
    let mut app = insert("f\n\ta\nb");
    press(&mut app, "\x1b");
    assert_eq!(app.to_scheme(), "(f a b)");
    app.handle_key(alt('d'));
    press(&mut app, "d");
    assert_eq!(app.to_scheme(), "(f a)");
}

#[test]
fn horizontal_scroll() {
    let mut terminal = terminal(15, 6);
    let mut app = insert("0123456789ABCDEFGHIJKLMNOPQRSTUVWXYZabcd");
    press(&mut app, "\x1b0");
    assert_eq!(screen(&mut terminal, &mut app)[0], "0123456789AB›");
    assert_eq!(app.width, 13);
    assert_eq!(app.h_scroll, 0);
    press(&mut app, "$");
    let line = screen(&mut terminal, &mut app)[0].clone();
    assert_eq!(app.h_scroll, 30);
    assert!(line.starts_with('‹'));
    assert!(line.ends_with('d'));
    press(&mut app, "020l");
    assert_eq!(screen(&mut terminal, &mut app)[0], "‹KLMNOPQRSTU›");
    assert_eq!(app.h_scroll, 20);
    let mut app = insert("f\n\ta");
    press(&mut app, "\x1b");
    assert_eq!(screen(&mut terminal, &mut app).into_iter().take(2).collect::<Vec<_>>(), vec!["f", "└── a"]);
}

#[test]
fn source_view_wraps() {
    let mut terminal = terminal(15, 12);
    let mut app = insert("0123456789ABCDEFGHIJKLMNOPQRSTUVWXYZabcd");
    press(&mut app, "\x1b");
    app.toggle_source_view();
    let lines = screen(&mut terminal, &mut app);
    assert!(lines.len() > 1);
    assert_eq!(lines.concat(), "0123456789ABCDEFGHIJKLMNOPQRSTUVWXYZabcd");
}

#[test]
fn home_end_in_normal_mode() {
    let mut app = insert("abc");
    press(&mut app, "\x1b");
    key(&mut app, Key::Home);
    assert_eq!(app.cursor_col, 0);
    key(&mut app, Key::End);
    assert_eq!(app.cursor_col, 3);
}

#[test]
fn middle_of_screen() {
    let mut terminal = terminal(20, 10);
    let mut app = numbered(20);
    press(&mut app, "\x1bgg");
    screen(&mut terminal, &mut app);
    assert_eq!(app.height, 7);
    press(&mut app, "M");
    assert_eq!(app.cursor, 3);
    press(&mut app, "\x1bgg");
    screen(&mut terminal, &mut app);
    press(&mut app, "\x06");
    screen(&mut terminal, &mut app);
    press(&mut app, "M");
    assert_eq!(app.cursor, app.scroll + app.height / 2);
    let mut app = insert("a\nb\nc");
    press(&mut app, "\x1bggM");
    assert_eq!(app.cursor, 1);
}

#[test]
fn backspace_delete_do_not_yank() {
    let mut app = insert("z\n\ta\n");
    press(&mut app, "\x1bggyy");
    assert_eq!(app.register.len(), 1);
    assert_eq!(app.to_scheme(), "(z a ())");
    press(&mut app, "G");
    key(&mut app, Key::Delete);
    assert_eq!(app.to_scheme(), "(z a)");
    press(&mut app, "p");
    assert_eq!(app.to_scheme(), "(z a z)");
    let mut app = insert("z\n\ta\n\t");
    press(&mut app, "\x1bggyy");
    assert_eq!(app.to_scheme(), "(z (a ()))");
    press(&mut app, "Gi\x7f");
    assert_eq!(app.to_scheme(), "(z a)");
    press(&mut app, "\x1bp");
    assert_eq!(app.to_scheme(), "(z a z)");
    let mut app = insert("z\n\ta\n");
    press(&mut app, "\x1bggyyGx");
    assert_eq!(app.to_scheme(), "(z a)");
    press(&mut app, "p");
    assert_eq!(app.to_scheme(), "(z a ())");
}

#[test]
fn edit_in_source_view() {
    let mut app = insert("f\n\ta\nb");
    press(&mut app, "\x1b");
    assert_eq!(app.to_scheme(), "(f a b)");
    app.toggle_source_view();
    assert!(app.source_mode);
    assert_eq!(app.nodes.iter().map(|n| text(&n.text)).collect::<Vec<_>>(), vec!["(f a b)".to_string()]);
    assert_eq!(app.mode, Mode::Normal);
    press(&mut app, "A c\x1b");
    assert_eq!(node(&app, 0), "(f a b) c");
    app.toggle_source_view();
    assert!(!app.source_mode);
    assert_eq!(app.to_scheme(), "(f a b)\n\nc");
}

#[test]
fn source_view_parse_error_stays() {
    let mut app = insert("(a b)");
    press(&mut app, "\x1b");
    app.toggle_source_view();
    press(&mut app, "A (\x1b");
    app.toggle_source_view();
    assert!(app.source_mode);
    assert!(message(&app).contains("cannot parse back"));
}

#[test]
fn source_view_blank_lines_stay_blank() {
    let mut app = insert("a");
    press(&mut app, "\x1b");
    press(&mut app, "obcd\x1b");
    assert_eq!(app.to_scheme(), "a\n\nbcd");
    app.toggle_source_view();
    assert_eq!(app.tree_lines(), vec!["a", "", "bcd"]);
}

#[test]
fn source_view_tab_inserts_spaces() {
    let mut app = insert("f");
    press(&mut app, "\x1b");
    app.toggle_source_view();
    press(&mut app, "A\tx\x1b");
    assert_eq!(node(&app, 0), "f  x");
    assert_eq!(app.nodes[0].depth, 0);
    assert_eq!(app.tree_lines(), vec!["f  x"]);
}

#[test]
fn source_view_has_its_own_register() {
    let mut app = insert("f\n\ta\nb");
    press(&mut app, "\x1b");
    press(&mut app, "ggyy");
    assert_eq!(app.register.len(), 1);
    app.toggle_source_view();
    assert_eq!(app.source_register.len(), 0);
    press(&mut app, "ggyy");
    assert_eq!(app.source_register.len(), 1);
    assert_eq!(app.register.len(), 1);
    press(&mut app, "p");
    assert_eq!(node(&app, 1), node(&app, 0));
}

#[test]
fn title_shows_edit_mode_in_source_view() {
    let mut app = insert("f");
    press(&mut app, "\x1b");
    app.toggle_source_view();
    assert!(title(&app).contains("NORMAL"));
    assert!(!title(&app).contains("Scheme"));
    press(&mut app, "i");
    assert!(title(&app).contains("INSERT"));
}

#[test]
fn undo_crosses_source_view_toggle() {
    let mut app = insert("f\n\ta");
    press(&mut app, "\x1b");
    assert_eq!(app.to_scheme(), "(f a)");
    app.toggle_source_view();
    assert!(app.source_mode);
    press(&mut app, "ob\x1b");
    assert_eq!(app.nodes.len(), 2);
    press(&mut app, "u");
    assert!(app.source_mode);
    assert_eq!(app.nodes.len(), 1);
    press(&mut app, "u");
    assert!(!app.source_mode);
}

#[test]
fn f2_preserves_cursor_position() {
    let mut app = insert("define\n\tf\nx\n\x08define\n\tg\ny");
    press(&mut app, "\x1b");
    assert_eq!(app.to_scheme(), "(define f\n  x)\n\n(define g\n  y)");
    let g = app.nodes.iter().position(|n| text(&n.text) == "g").unwrap();
    app.cursor = g;
    app.toggle_source_view();
    assert!(app.source_mode);
    assert_eq!(node(&app, app.cursor), "(define g");
    app.toggle_source_view();
    assert!(!app.source_mode);
    assert_eq!(node(&app, app.cursor), "g");
}

#[test]
fn f2_falls_back_to_enclosing_node() {
    let mut app = insert("+\n\t1\n2");
    press(&mut app, "\x1b");
    assert_eq!(app.to_scheme(), "(+ 1 2)");
    press(&mut app, "j");
    assert_eq!(text(app.text()), "2");
    app.toggle_source_view();
    assert_eq!(app.cursor, 0);
    assert_eq!(node(&app, 0), "(+ 1 2)");
}

#[test]
fn f2_preserves_cursor_column() {
    let mut app = insert("abcdef");
    press(&mut app, "\x1b0lll");
    assert_eq!(app.cursor_col, 3);
    app.toggle_source_view();
    assert_eq!(app.cursor_col, 3);
    assert_eq!(node(&app, 0), "abcdef");
}

#[test]
fn f2_preserves_cursor_column_with_children() {
    let mut app = insert("f\n\ta");
    press(&mut app, "\x1bgg0");
    assert_eq!(app.to_scheme(), "(f a)");
    app.toggle_source_view();
    assert_eq!(node(&app, 0), "(f a)");
    assert_eq!(app.cursor_col, 1);
}

#[test]
fn ctrl_j_is_enter() {
    let mut app = insert("ab");
    app.handle_key(ctrl('j'));
    press(&mut app, "cd");
    assert_eq!(app.to_scheme(), "ab\n\ncd");
    assert_eq!(node(&app, 0), "ab");
    assert_eq!(node(&app, 1), "cd");
    let mut app = insert("x");
    press(&mut app, "\x1b");
    app.handle_key(ctrl('j'));
    assert_eq!(app.to_scheme(), "x");
}

#[test]
fn paste_multiline_into_source_view() {
    let mut app = insert("f\n\ta");
    press(&mut app, "\x1b");
    assert_eq!(app.to_scheme(), "(f a)");
    app.toggle_source_view();
    press(&mut app, "A");
    let words = ["new", "line"];
    for (i, word) in words.iter().enumerate() {
        if i > 0 {
            app.handle_key(ctrl('j'));
        }
        press(&mut app, word);
    }
    press(&mut app, "\x1b");
    app.toggle_source_view();
    assert_eq!(app.to_scheme(), "(f a)\n\nnew\n\nline");
}

#[test]
fn bracketed_paste_in_insert_mode() {
    let mut app = insert("f\n\ta");
    press(&mut app, "\x1b");
    assert_eq!(app.to_scheme(), "(f a)");
    app.toggle_source_view();
    press(&mut app, "A");
    app.handle_paste("new\tline\nsecond");
    assert_eq!(node(&app, 0), "(f a)new\tline");
    assert_eq!(node(&app, 1), "second");
}

#[test]
fn bracketed_paste_in_normal_mode() {
    let mut app = insert("f\n\ta\nb");
    press(&mut app, "\x1b");
    assert_eq!(app.to_scheme(), "(f a b)");
    press(&mut app, "gg0");
    app.handle_paste("ddyyx");
    assert_eq!(node(&app, 0), "ddyyxf");
    assert_eq!(app.to_scheme(), "(ddyyxf a b)");
    press(&mut app, "u");
    assert_eq!(app.to_scheme(), "(f a b)");
}

#[test]
fn bracketed_paste_in_command_mode() {
    let mut app = insert("f");
    press(&mut app, "\x1b:");
    app.handle_paste("w foo.scm\nrm -rf /");
    assert_eq!(text(&app.command), "w foo.scm");
}

#[test]
fn f2_centers_cursor() {
    let mut terminal = terminal(20, 10);
    let mut app = numbered(30);
    press(&mut app, "\x1b");
    screen(&mut terminal, &mut app);
    press(&mut app, ":20\n");
    app.toggle_source_view();
    assert_eq!(app.scroll + app.height / 2, app.cursor);
    app.toggle_source_view();
    assert_eq!(app.scroll + app.height / 2, app.cursor);
}

#[test]
fn search_centers_cursor() {
    let mut terminal = terminal(20, 10);
    let mut app = numbered(30);
    press(&mut app, "\x1b");
    screen(&mut terminal, &mut app);
    app.cursor = 0;
    press(&mut app, "/25\n");
    assert_eq!(app.cursor, 25);
    assert_eq!(app.scroll + app.height / 2, app.cursor);
    press(&mut app, ":0\n");
    press(&mut app, "n");
    assert_eq!(app.cursor, 25);
    assert_eq!(app.scroll + app.height / 2, app.cursor);
}

#[test]
fn substitute_basic() {
    let mut app = nodes_app(&["foofoo", "bar"]);
    app.cursor = 0;
    press(&mut app, ":s/foo/X/\n");
    assert_eq!(node(&app, 0), "Xfoo");
    assert!(message(&app).contains("1"));
    let mut app = nodes_app(&["foofoo", "bar"]);
    app.cursor = 0;
    press(&mut app, ":s/foo/X/g\n");
    assert_eq!(node(&app, 0), "XX");
    assert!(message(&app).contains("2"));
}

#[test]
fn substitute_case_flags() {
    let mut app = nodes_app(&["Foo"]);
    app.cursor = 0;
    press(&mut app, ":s/foo/X/I\n");
    assert_eq!(node(&app, 0), "Foo");
    assert!(message(&app).contains("not found"));
    let mut app = nodes_app(&["foo"]);
    app.cursor = 0;
    press(&mut app, ":s/FOO/X/i\n");
    assert_eq!(node(&app, 0), "X");
}

#[test]
fn substitute_n_flag() {
    let mut app = nodes_app(&["foofoo"]);
    app.cursor = 0;
    press(&mut app, ":s/foo/X/gn\n");
    assert_eq!(node(&app, 0), "foofoo");
    assert!(message(&app).contains("2"));
}

#[test]
fn substitute_e_flag() {
    let mut app = nodes_app(&["abc"]);
    app.cursor = 0;
    press(&mut app, ":s/xyz/Q/\n");
    assert!(message(&app).contains("not found"));
    let mut app = nodes_app(&["abc"]);
    app.cursor = 0;
    press(&mut app, ":s/xyz/Q/e\n");
    assert!(!message(&app).contains("not found"));
    assert_eq!(node(&app, 0), "abc");
}

#[test]
fn substitute_range() {
    let mut app = nodes_app(&["foo", "foo", "foo"]);
    app.cursor = 1;
    press(&mut app, ":s/foo/X/\n");
    assert_eq!(node(&app, 0), "foo");
    assert_eq!(node(&app, 1), "X");
    assert_eq!(node(&app, 2), "foo");
    let mut app = nodes_app(&["foo", "foo", "foo"]);
    app.cursor = 0;
    press(&mut app, ":%s/foo/X/\n");
    assert_eq!(node(&app, 0), "X");
    assert_eq!(node(&app, 1), "X");
    assert_eq!(node(&app, 2), "X");
    let mut app = nodes_app(&["foo", "foo", "foo", "foo", "foo"]);
    app.cursor = 0;
    press(&mut app, ":2,4s/foo/X/\n");
    assert_eq!(node(&app, 0), "foo");
    assert_eq!(node(&app, 1), "X");
    assert_eq!(node(&app, 2), "X");
    assert_eq!(node(&app, 3), "X");
    assert_eq!(node(&app, 4), "foo");
    let mut app = nodes_app(&["foo", "foo", "foo"]);
    app.cursor = 0;
    press(&mut app, ":3s/foo/X/\n");
    assert_eq!(node(&app, 0), "foo");
    assert_eq!(node(&app, 1), "foo");
    assert_eq!(node(&app, 2), "X");
    let mut app = nodes_app(&["foo", "foo", "foo", "foo", "foo"]);
    app.cursor = 1;
    press(&mut app, ":.,$s/foo/X/\n");
    assert_eq!(node(&app, 0), "foo");
    assert_eq!(node(&app, 1), "X");
    assert_eq!(node(&app, 2), "X");
    assert_eq!(node(&app, 3), "X");
    assert_eq!(node(&app, 4), "X");
}

#[test]
fn substitute_groups_and_whole() {
    let mut app = nodes_app(&["abc123def456"]);
    app.cursor = 0;
    press(&mut app, ":s/\\(\\d\\+\\)/<\\1>/g\n");
    assert_eq!(node(&app, 0), "abc<123>def<456>");
    let mut app = nodes_app(&["abc123def456"]);
    app.cursor = 0;
    press(&mut app, ":s/\\d\\+/[&]/g\n");
    assert_eq!(node(&app, 0), "abc[123]def[456]");
}

#[test]
fn substitute_case_conversion() {
    let mut app = nodes_app(&["hello world"]);
    app.cursor = 0;
    press(&mut app, ":s/hello/\\u&/\n");
    assert_eq!(node(&app, 0), "Hello world");
    let mut app = nodes_app(&["HELLO"]);
    app.cursor = 0;
    press(&mut app, ":s/HELLO/\\l&/\n");
    assert_eq!(node(&app, 0), "hELLO");
    let mut app = nodes_app(&["abc"]);
    app.cursor = 0;
    press(&mut app, ":s/abc/\\U&\\e-done/\n");
    assert_eq!(node(&app, 0), "ABC-done");
    let mut app = nodes_app(&["ABC"]);
    app.cursor = 0;
    press(&mut app, ":s/ABC/\\L&\\E-done/\n");
    assert_eq!(node(&app, 0), "abc-done");
}

#[test]
fn substitute_tilde_reuses_previous_replacement() {
    let mut app = nodes_app(&["foo", "baz"]);
    app.cursor = 0;
    press(&mut app, ":s/foo/BAR/\n");
    assert_eq!(node(&app, 0), "BAR");
    app.cursor = 1;
    press(&mut app, ":s/baz/~/\n");
    assert_eq!(node(&app, 1), "BAR");
}

#[test]
fn substitute_reuses_last_search_pattern() {
    let mut app = nodes_app(&["apple", "banana", "apple2"]);
    app.cursor = 0;
    press(&mut app, "/apple\n");
    assert_eq!(app.cursor, 2);
    press(&mut app, ":s//NEW/\n");
    assert_eq!(node(&app, 2), "NEW2");
    press(&mut app, "n");
    assert_eq!(app.cursor, 0);
}

#[test]
fn substitute_ampersand_repeat() {
    let mut app = nodes_app(&["foofoo", "foofoo", "foofoo"]);
    app.cursor = 0;
    press(&mut app, ":s/foo/X/g\n");
    assert_eq!(node(&app, 0), "XX");
    app.cursor = 1;
    press(&mut app, ":&\n");
    assert_eq!(node(&app, 1), "Xfoo");
    app.cursor = 2;
    press(&mut app, ":&&\n");
    assert_eq!(node(&app, 2), "XX");
}

#[test]
fn substitute_global_repeat_key() {
    let mut app = nodes_app(&["foofoo", "foofoo", "foofoo"]);
    app.cursor = 0;
    press(&mut app, ":s/foo/X/g\n");
    assert_eq!(node(&app, 0), "XX");
    assert_eq!(node(&app, 1), "foofoo");
    assert_eq!(node(&app, 2), "foofoo");
    press(&mut app, "g&");
    assert_eq!(node(&app, 0), "XX");
    assert_eq!(node(&app, 1), "XX");
    assert_eq!(node(&app, 2), "XX");
}

#[test]
fn substitute_confirm_shows_match_position() {
    let mut app = nodes_app(&["xxfooxx", "xxfooxx"]);
    app.cursor = 0;
    app.cursor_col = 6;
    press(&mut app, ":%s/foo/X/gc\n");
    assert_eq!(app.cursor, 0);
    assert_eq!(app.cursor_col, 2);
    press(&mut app, "y");
    assert_eq!(app.cursor, 1);
    assert_eq!(app.cursor_col, 2);
}

#[test]
fn substitute_confirm_yes_and_undo() {
    let mut app = nodes_app(&["foo", "foo", "foo"]);
    app.cursor = 0;
    press(&mut app, ":%s/foo/X/c\n");
    assert_eq!(app.mode, Mode::Confirm);
    assert!(message(&app).contains("replace?"));
    press(&mut app, "y");
    assert_eq!(app.mode, Mode::Confirm);
    press(&mut app, "y");
    assert_eq!(app.mode, Mode::Confirm);
    press(&mut app, "y");
    assert_eq!(app.mode, Mode::Normal);
    assert_eq!(node(&app, 0), "X");
    assert_eq!(node(&app, 1), "X");
    assert_eq!(node(&app, 2), "X");
    assert!(message(&app).contains("3"));
    press(&mut app, "u");
    assert_eq!(node(&app, 0), "foo");
    assert_eq!(node(&app, 1), "foo");
    assert_eq!(node(&app, 2), "foo");
}

#[test]
fn substitute_confirm_no_and_quit() {
    let mut app = nodes_app(&["foo", "foo"]);
    app.cursor = 0;
    press(&mut app, ":%s/foo/X/c\n");
    press(&mut app, "n");
    assert_eq!(app.mode, Mode::Confirm);
    press(&mut app, "q");
    assert_eq!(app.mode, Mode::Normal);
    assert_eq!(node(&app, 0), "foo");
    assert_eq!(node(&app, 1), "foo");
    assert!(message(&app).contains("0"));
}

#[test]
fn substitute_confirm_last() {
    let mut app = nodes_app(&["foo", "foo"]);
    app.cursor = 0;
    press(&mut app, ":%s/foo/X/c\n");
    press(&mut app, "l");
    assert_eq!(app.mode, Mode::Normal);
    assert_eq!(node(&app, 0), "X");
    assert_eq!(node(&app, 1), "foo");
    assert!(message(&app).contains("1"));
}

#[test]
fn substitute_confirm_all() {
    let mut app = nodes_app(&["foo", "foo", "foo"]);
    app.cursor = 0;
    press(&mut app, ":%s/foo/X/c\n");
    press(&mut app, "a");
    assert_eq!(app.mode, Mode::Normal);
    assert_eq!(node(&app, 0), "X");
    assert_eq!(node(&app, 1), "X");
    assert_eq!(node(&app, 2), "X");
    assert!(message(&app).contains("3"));
    assert_eq!(app.cursor, 2);
    assert_eq!(app.cursor_col, 0);
}

#[test]
fn substitute_moves_cursor_to_last_match() {
    let mut app = nodes_app(&["xxfooxx", "xxfooxx"]);
    app.cursor = 0;
    press(&mut app, ":%s/foo/X/\n");
    assert_eq!(app.cursor, 1);
    assert_eq!(app.cursor_col, 2);
}

#[test]
fn substitute_confirm_no_match() {
    let mut app = nodes_app(&["abc"]);
    app.cursor = 0;
    press(&mut app, ":s/xyz/Q/c\n");
    assert_eq!(app.mode, Mode::Normal);
    assert!(message(&app).contains("not found"));
}

#[test]
fn substitute_centers_cursor() {
    let mut terminal = terminal(20, 10);
    let mut app = numbered(30);
    press(&mut app, "\x1b");
    screen(&mut terminal, &mut app);
    app.cursor = 0;
    press(&mut app, ":%s/^25$/XX/\n");
    assert_eq!(node(&app, 25), "XX");
    assert_eq!(app.cursor, 25);
    assert_eq!(app.scroll + app.height / 2, app.cursor);
}

#[test]
fn visual_char_yank_and_paste() {
    let mut app = insert("abcdef");
    press(&mut app, "\x1b0vlly");
    assert_eq!(app.mode, Mode::Normal);
    assert_eq!(app.to_scheme(), "abcdef");
    assert_eq!(app.register.len(), 1);
    assert_eq!(text(&app.register[0].text), "abc");
    assert_eq!(app.cursor_col, 0);
    press(&mut app, "$p");
    assert_eq!(app.to_scheme(), "abcdef\n\nabc");
}

#[test]
fn visual_char_delete_and_paste() {
    let mut app = insert("abcdef");
    press(&mut app, "\x1b0vlld");
    assert_eq!(app.mode, Mode::Normal);
    assert_eq!(app.to_scheme(), "def");
    assert_eq!(app.cursor_col, 0);
    assert_eq!(app.register.len(), 1);
    assert_eq!(text(&app.register[0].text), "abc");
    press(&mut app, "P");
    assert_eq!(app.to_scheme(), "abc\n\ndef");
}

#[test]
fn visual_char_change() {
    let mut app = insert("abcdef");
    press(&mut app, "\x1b0vllc");
    assert_eq!(app.mode, Mode::Insert);
    assert_eq!(app.to_scheme(), "def");
    press(&mut app, "XYZ");
    assert_eq!(app.to_scheme(), "XYZdef");
}

#[test]
fn visual_char_crosses_nodes_extends_selection() {
    let mut app = nodes_app(&["abc", "def"]);
    app.cursor = 0;
    app.cursor_col = 1;
    press(&mut app, "v");
    press(&mut app, "j");
    assert_eq!(app.cursor, 1);
    assert_eq!(app.cursor_col, 1);
    press(&mut app, "y");
    assert_eq!(app.register.len(), 2);
    assert_eq!(text(&app.register[0].text), "bc");
    assert_eq!(text(&app.register[1].text), "de");
    assert_eq!(node(&app, 0), "abc");
    assert_eq!(node(&app, 1), "def");
}

#[test]
fn visual_char_multi_node_yank_matches_partial_2yy() {
    let mut app = nodes_app(&["hello", "world", "foo"]);
    app.cursor = 0;
    app.cursor_col = 1;
    press(&mut app, "v");
    app.cursor = 1;
    app.cursor_col = 1;
    press(&mut app, "y");
    assert_eq!(app.cursor, 0);
    assert_eq!(app.cursor_col, 1);
    assert_eq!(app.register.len(), 2);
    assert_eq!(text(&app.register[0].text), "ello");
    assert_eq!(text(&app.register[1].text), "wo");
    assert_eq!(app.register[0].depth, 0);
    assert_eq!(app.register[1].depth, 0);
    assert_eq!(node(&app, 0), "hello");
    assert_eq!(node(&app, 1), "world");
    assert_eq!(node(&app, 2), "foo");
}

#[test]
fn visual_char_multi_node_delete_does_not_merge() {
    let mut app = nodes_app(&["hello", "world", "foo"]);
    app.cursor = 0;
    app.cursor_col = 1;
    press(&mut app, "v");
    app.cursor = 1;
    app.cursor_col = 1;
    press(&mut app, "d");
    assert_eq!(app.nodes.len(), 3);
    assert_eq!(node(&app, 0), "h");
    assert_eq!(node(&app, 1), "rld");
    assert_eq!(node(&app, 2), "foo");
    assert_eq!(app.cursor, 0);
    assert_eq!(app.cursor_col, 1);
    assert_eq!(app.register.len(), 2);
    assert_eq!(text(&app.register[0].text), "ello");
    assert_eq!(text(&app.register[1].text), "wo");
}

#[test]
fn visual_char_multi_node_middle_node_untouched_in_register() {
    let mut app = nodes_app(&["hello", "world", "foo"]);
    app.cursor = 0;
    app.cursor_col = 1;
    press(&mut app, "v");
    app.cursor = 2;
    app.cursor_col = 1;
    press(&mut app, "d");
    assert_eq!(app.nodes.len(), 2);
    assert_eq!(node(&app, 0), "h");
    assert_eq!(node(&app, 1), "o");
    assert_eq!(app.register.len(), 3);
    assert_eq!(text(&app.register[0].text), "ello");
    assert_eq!(text(&app.register[1].text), "world");
    assert_eq!(text(&app.register[2].text), "fo");
    press(&mut app, "P");
    assert_eq!(app.nodes.len(), 5);
    assert_eq!(node(&app, 0), "ello");
    assert_eq!(node(&app, 1), "world");
    assert_eq!(node(&app, 2), "fo");
    assert_eq!(node(&app, 3), "h");
    assert_eq!(node(&app, 4), "o");
}

#[test]
fn visual_char_multi_node_change() {
    let mut app = nodes_app(&["hello", "world", "foo"]);
    app.cursor = 0;
    app.cursor_col = 1;
    press(&mut app, "v");
    app.cursor = 1;
    app.cursor_col = 1;
    press(&mut app, "c");
    assert_eq!(app.mode, Mode::Insert);
    assert_eq!(node(&app, 0), "h");
    assert_eq!(node(&app, 1), "rld");
    press(&mut app, "X");
    assert_eq!(node(&app, 0), "hX");
}

#[test]
fn visual_char_full_nodes_delete_like_dd() {
    let mut app = insert("f\n\ta\n\t\tx");
    press(&mut app, "\x1b");
    assert_eq!(app.to_scheme(), "(f (a x))");
    app.cursor = 0;
    app.cursor_col = 0;
    press(&mut app, "v");
    app.cursor = 1;
    app.cursor_col = 0;
    press(&mut app, "d");
    assert_eq!(app.to_scheme(), "x");
    assert_eq!(app.nodes.len(), 1);
    assert_eq!(app.nodes[0].depth, 0);
    assert_eq!(app.register.len(), 2);
    assert_eq!(text(&app.register[0].text), "f");
    assert_eq!(text(&app.register[1].text), "a");
}

#[test]
fn visual_line_yank_matches_nyy() {
    let mut app = insert("f\n\ta\n\tb\n\x08c");
    press(&mut app, "\x1b");
    assert_eq!(app.to_scheme(), "(f (a b) c)");
    press(&mut app, "ggVjjy");
    assert_eq!(app.register.len(), 3);
    press(&mut app, "Gp");
    assert_eq!(app.to_scheme(), "(f (a b) c (f (a b)))");
}

#[test]
fn visual_line_delete_promotes_child() {
    let mut app = insert("f\n\ta\n\t\tx");
    press(&mut app, "\x1b");
    assert_eq!(app.to_scheme(), "(f (a x))");
    press(&mut app, "ggVjd");
    assert_eq!(app.to_scheme(), "x");
    assert_eq!(app.nodes.len(), 1);
    assert_eq!(app.nodes[0].depth, 0);
}

#[test]
fn visual_line_change() {
    let mut app = insert("f\n\ta\n\t\tx");
    press(&mut app, "\x1b");
    press(&mut app, "ggVjc");
    assert_eq!(app.mode, Mode::Insert);
    assert_eq!(app.nodes.len(), 2);
    assert_eq!(node(&app, 0), "");
    press(&mut app, "NEW");
    assert_eq!(node(&app, 0), "NEW");
    assert_eq!(node(&app, 1), "x");
}

#[test]
fn visual_line_indent_does_not_double_apply() {
    let mut app = insert("root\nf\n\ta\n\t\tx");
    press(&mut app, "\x1b");
    assert_eq!(app.to_scheme(), "root\n\n(f (a x))");
    assert_eq!(depths(&app), vec![0, 0, 1, 2]);
    press(&mut app, "ggj");
    press(&mut app, "Vj>");
    assert_eq!(depths(&app), vec![0, 1, 2, 3]);
}

#[test]
fn visual_command_range() {
    let mut app = nodes_app(&["foo", "foo", "foo"]);
    app.cursor = 0;
    press(&mut app, "Vj:");
    assert_eq!(text(&app.command), "'<,'>");
    press(&mut app, "s/foo/X/\n");
    assert_eq!(node(&app, 0), "X");
    assert_eq!(node(&app, 1), "X");
    assert_eq!(node(&app, 2), "foo");
}

#[test]
fn visual_esc_discards_selection_without_change() {
    let mut app = insert("abcdef");
    press(&mut app, "\x1b0vll\x1b");
    assert_eq!(app.mode, Mode::Normal);
    assert_eq!(app.to_scheme(), "abcdef");
}

#[test]
fn visual_toggle_kind_and_exit() {
    let mut app = insert("abc");
    press(&mut app, "\x1b0v");
    assert_eq!(app.mode, Mode::Visual);
    assert_eq!(app.visual_kind, VisualKind::Char);
    press(&mut app, "v");
    assert_eq!(app.mode, Mode::Normal);
    press(&mut app, "V");
    assert_eq!(app.mode, Mode::Visual);
    assert_eq!(app.visual_kind, VisualKind::Line);
    press(&mut app, "V");
    assert_eq!(app.mode, Mode::Normal);
    press(&mut app, "v");
    assert_eq!(app.visual_kind, VisualKind::Char);
    press(&mut app, "V");
    assert_eq!(app.mode, Mode::Visual);
    assert_eq!(app.visual_kind, VisualKind::Line);
}

#[test]
fn visual_arrow_keys_extend_selection() {
    let mut app = insert("abcdef");
    press(&mut app, "\x1b0v");
    assert_eq!(app.cursor_col, 0);
    key(&mut app, Key::Right);
    assert_eq!(app.cursor_col, 1);
    key(&mut app, Key::Right);
    assert_eq!(app.cursor_col, 2);
}

/// Whether every span of a line is reversed, and the text of the
/// reversed ones.
fn all_reversed(line: &DisplayLine) -> bool {
    line.whole || (line.number.is_none() && !line.left_more && !line.right_more && line.marked.iter().all(|m| *m))
}

fn reversed_text(line: &DisplayLine) -> String {
    line.cells.iter().zip(line.marked.iter()).filter(|(_, m)| line.whole || **m).map(|(c, _)| *c).collect()
}

#[test]
fn visual_selection_is_reversed_on_screen() {
    let mut app = insert("abc\ndef");
    press(&mut app, "\x1b");
    press(&mut app, "ggVj");
    let lines = app.tree_display();
    assert!(all_reversed(&lines[0]));
    assert!(all_reversed(&lines[1]));
    let mut app = insert("abcdef");
    press(&mut app, "\x1b0vll");
    let line = &app.tree_display()[0];
    assert_eq!(reversed_text(line), "abc");
    let mut app = nodes_app(&["hello", "world", "foo"]);
    app.cursor = 0;
    app.cursor_col = 1;
    press(&mut app, "vjj");
    let lines = app.tree_display();
    assert_eq!(reversed_text(&lines[0]), "ello");
    assert!(all_reversed(&lines[1]));
    assert_eq!(reversed_text(&lines[2]), "fo");
}
