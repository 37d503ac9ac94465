//! The `:` commands other than substitution, and files: what to read or
//! write is handed to the caller as a request, and what came of it is
//! handed back.

use vstd::prelude::*;

use super::moved_to;
use super::substitute::substituted;
use super::substitute::range_len;
use super::view::tree_fits;
use super::view::tree_of;
use super::view::trimmed;
use super::App;
use super::Mode;
use super::Request;
use super::VisualKind;
use crate::node::nodes_view;
use crate::node::same_text;
use crate::node::NodeView;
use crate::node::nodes_from_spec;
use crate::reader::error_text;
use crate::reader::parse_text;
use crate::reader::read;
use crate::text::chars_of;
use crate::text::decimal;
use crate::text::is_whitespace;
use crate::text::parse_usize;
use crate::text::parsed_usize;
use crate::text::push_decimal;
use crate::text::push_str;
use crate::text::spec_is_whitespace;
use crate::text::string_from;

verus! {

/// The words of a line, scanning from `i` with `cur` gathered: runs of
/// characters between white space.
pub open spec fn words_from(s: Seq<char>, i: int, cur: Seq<char>) -> Seq<Seq<char>>
    decreases s.len() - i,
{
    if i < 0 || i >= s.len() {
        if cur.len() > 0 {
            seq![cur]
        } else {
            Seq::empty()
        }
    } else if spec_is_whitespace(s[i]) {
        (if cur.len() > 0 {
            seq![cur]
        } else {
            Seq::empty()
        }) + words_from(s, i + 1, Seq::empty())
    } else {
        words_from(s, i + 1, cur.push(s[i]))
    }
}

/// The words of a line.
pub open spec fn words(s: Seq<char>) -> Seq<Seq<char>> {
    words_from(s, 0, Seq::empty())
}

/// The words of a line, between white space.
pub fn split_words(s: &Vec<char>) -> (r: Vec<Vec<char>>)
    ensures
        r@.len() == words(s@).len(),
        forall|i: int| 0 <= i < r@.len() ==> #[trigger] r@[i]@ == words(s@)[i],
{
    let mut out: Vec<Vec<char>> = Vec::new();
    let mut cur: Vec<char> = Vec::new();
    let mut i: usize = 0;
    while i < s.len()
        invariant
            i <= s@.len(),
            ({
                let w = words(s@);
                let rest = words_from(s@, i as int, cur@);
                &&& out@.len() + rest.len() == w.len()
                &&& forall|k: int| 0 <= k < out@.len() ==> #[trigger] out@[k]@ == w[k]
                &&& forall|k: int| 0 <= k < rest.len() ==> #[trigger] rest[k] == w[out@.len() + k]
            }),
        decreases s@.len() - i,
    {
        let ghost rest0 = words_from(s@, i as int, cur@);
        let ghost old_cur = cur@;
        let ghost w = words(s@);
        if is_whitespace(s[i]) {
            if cur.len() > 0 {
                let done = cur;
                let ghost d = done@;
                out.push(done);
                cur = Vec::new();
                proof {
                    let rest = words_from(s@, i + 1, cur@);
                    assert(cur@ =~= Seq::<char>::empty());
                    assert(rest0 =~= seq![d] + rest);
                    assert(rest0[0] == d);
                    assert forall|k: int| 0 <= k < rest.len() implies #[trigger] rest[k] == w[out@.len() + k] by {
                        assert(rest0[k + 1] == rest[k]);
                    }
                }
            } else {
                proof {
                    assert(old_cur =~= Seq::<char>::empty());
                    assert(rest0 =~= words_from(s@, i + 1, cur@));
                }
            }
        } else {
            cur.push(s[i]);
            proof {
                assert(rest0 == words_from(s@, i + 1, cur@));
            }
        }
        i = i + 1;
    }
    let ghost rest = words_from(s@, i as int, cur@);
    if cur.len() > 0 {
        let ghost d = cur@;
        out.push(cur);
        assert(rest == seq![d]);
        assert(rest[0] == d);
    } else {
        assert(rest.len() == 0);
    }
    out
}

/// An optional argument by its characters.
pub open spec fn arg_view(argument: Option<&Vec<char>>) -> Option<Seq<char>> {
    match argument {
        Some(v) => Some(v@),
        None => None,
    }
}

/// A path by its characters.
pub open spec fn path_view(path: Option<String>) -> Option<Seq<char>> {
    match path {
        Some(p) => Some(p@),
        None => None,
    }
}

/// The file a command writes to or reads: the one named, else `known`.
pub open spec fn target_of(argument: Option<Seq<char>>, known: Option<String>) -> Option<Seq<char>> {
    match argument {
        Some(n) => Some(n),
        None => path_view(known),
    }
}

/// The text that `:w` writes: the source, or in the source view the lines
/// as they are, with a line break at the end.
pub open spec fn saved_text(s0: App) -> Seq<char> {
    (if s0.source_mode {
        super::view::joined_lines(nodes_view(s0.nodes@))
    } else {
        super::view::scheme_spec(nodes_view(s0.nodes@)).0
    }).push('\n')
}

/// Rows joined with line breaks between them.
pub open spec fn joined_rows(rows: Seq<Seq<char>>) -> Seq<char>
    decreases rows.len(),
{
    if rows.len() == 0 {
        Seq::empty()
    } else if rows.len() == 1 {
        rows[0]
    } else {
        joined_rows(rows.drop_last()) + "\n"@ + rows.last()
    }
}

/// The tree view of the nodes, a line each, with a line break at the end.
pub open spec fn tree_text(v: Seq<NodeView>) -> Seq<char> {
    joined_rows(Seq::new(v.len(), |i: int| super::view::line_spec(v, i, false))).push('\n')
}

/// `s1` is `s0` after `:w` (or `:wq` when `quit`): the file named becomes
/// the file; with no file at all the message says so; else the caller is
/// asked to write the text there.
pub open spec fn written(s0: App, s1: App, argument: Option<Seq<char>>, quit: bool) -> bool {
    match target_of(argument, s0.path) {
        None => s1.message@ == "no file name"@ && s1 == (App { message: s1.message, ..s0 }),
        Some(p) => {
            &&& s1 == (App { path: s1.path, request: s1.request, ..s0 })
            &&& path_view(s1.path) == Some(p)
            &&& s1.request matches Some(Request::Write { path, text, quit: q, tree }) && path@ == p && q == quit && !tree
                && text@ == saved_text(s0)
        },
    }
}

/// `s1` is `s0` after `:e`: refused with unsaved changes; the file named
/// becomes the file; with no file at all the message says so; else the
/// caller is asked to read it.
pub open spec fn edited(s0: App, s1: App, argument: Option<Seq<char>>) -> bool {
    if s0.modified {
        s1.message@ == "unsaved changes. Use :e! to discard"@ && s1 == (App { message: s1.message, ..s0 })
    } else {
        match target_of(argument, s0.path) {
            None => s1.message@ == "no file name"@ && s1 == (App { message: s1.message, ..s0 }),
            Some(p) => {
                &&& s1 == (App { path: s1.path, request: s1.request, ..s0 })
                &&& path_view(s1.path) == Some(p)
                &&& s1.request matches Some(Request::Read { path }) && path@ == p
            },
        }
    }
}

/// What `:wt` writes, or the message when it cannot: the tree view of the
/// nodes; in the source view, of what the lines read back as.
pub open spec fn tree_output(s0: App) -> Result<Seq<char>, Seq<char>> {
    if s0.source_mode {
        let text = super::view::joined_lines(nodes_view(s0.nodes@));
        if text.len() > usize::MAX - 8 {
            Err("cannot parse back into a tree: nested too deeply"@)
        } else {
            match crate::reader::parse_text(text) {
                Err(e) => Err("cannot parse back into a tree: "@ + crate::reader::error_text(e)),
                Ok((data, _)) => if super::view::tree_fits(data) {
                    Ok(tree_text(crate::node::nodes_from_spec(data)))
                } else {
                    Err("cannot parse back into a tree: nested too deeply"@)
                },
            }
        }
    } else {
        Ok(tree_text(nodes_view(s0.nodes@)))
    }
}

/// `s1` is `s0` after `:wt`: the file named becomes the file for `:wt`;
/// with no such file the message says so; else the caller is asked to
/// write the tree there, or the message tells why the source view does
/// not read as a tree.
pub open spec fn tree_written(s0: App, s1: App, argument: Option<Seq<char>>) -> bool {
    match target_of(argument, s0.tree_path) {
        None => s1.message@ == "no file name"@ && s1 == (App { message: s1.message, ..s0 }),
        Some(p) => {
            &&& path_view(s1.tree_path) == Some(p)
            &&& match tree_output(s0) {
                Ok(text) => s1 == (App { tree_path: s1.tree_path, request: s1.request, ..s0 })
                    && (s1.request matches Some(Request::Write { path, text: t, quit, tree }) && path@ == p && t@ == text
                    && !quit && tree),
                Err(m) => s1 == (App { tree_path: s1.tree_path, message: s1.message, ..s0 }) && s1.message@ == m,
            }
        },
    }
}

/// The title of the view: the file's name, `[+]` when changed, and the
/// mode.
pub open spec fn title_spec(path: Option<Seq<char>>, modified: bool, mode: Mode, kind: VisualKind) -> Seq<char> {
    let name = match path {
        Some(p) => p,
        None => "[No Name]"@,
    };
    let mark = if modified { " [+]"@ } else { Seq::empty() };
    let m = match mode {
        Mode::Normal => "NORMAL"@,
        Mode::Insert => "INSERT"@,
        Mode::Command => "COMMAND"@,
        Mode::Search => "SEARCH"@,
        Mode::Confirm => "CONFIRM"@,
        Mode::Visual => match kind {
            VisualKind::Line => "VISUAL LINE"@,
            VisualKind::Char => "VISUAL"@,
        },
    };
    " "@ + name + mark + " - "@ + m + " "@
}

/// The title of the view.
pub fn title(app: &App) -> (r: String)
    ensures
        r@ == title_spec(match app.path {
            Some(p) => Some(p@),
            None => None,
        }, app.modified, app.mode, app.visual_kind),
{
    let mut out: Vec<char> = Vec::new();
    push_str(&mut out, " ");
    match &app.path {
        Some(p) => push_str(&mut out, p.as_str()),
        None => push_str(&mut out, "[No Name]"),
    }
    if app.modified {
        push_str(&mut out, " [+]");
    }
    push_str(&mut out, " - ");
    match app.mode {
        Mode::Normal => push_str(&mut out, "NORMAL"),
        Mode::Insert => push_str(&mut out, "INSERT"),
        Mode::Command => push_str(&mut out, "COMMAND"),
        Mode::Search => push_str(&mut out, "SEARCH"),
        Mode::Confirm => push_str(&mut out, "CONFIRM"),
        Mode::Visual => match app.visual_kind {
            VisualKind::Line => push_str(&mut out, "VISUAL LINE"),
            VisualKind::Char => push_str(&mut out, "VISUAL"),
        },
    }
    push_str(&mut out, " ");
    string_from(out.as_slice())
}

/// Whether `o` is an option `:set` knows.
pub open spec fn is_setting(o: Seq<char>) -> bool {
    o == "number"@ || o == "nu"@ || o == "nonumber"@ || o == "nonu"@ || o == "number!"@ || o == "nu!"@
}

/// Whether lines are numbered once the options are set in turn.
pub open spec fn number_after(number: bool, opts: Seq<Seq<char>>) -> bool
    decreases opts.len(),
{
    if opts.len() == 0 {
        number
    } else {
        let n = number_after(number, opts.drop_last());
        let o = opts.last();
        if o == "number"@ || o == "nu"@ {
            true
        } else if o == "nonumber"@ || o == "nonu"@ {
            false
        } else if o == "number!"@ || o == "nu!"@ {
            !n
        } else {
            n
        }
    }
}

/// The last option that `:set` does not know.
pub open spec fn last_unknown(opts: Seq<Seq<char>>) -> Option<Seq<char>>
    decreases opts.len(),
{
    if opts.len() == 0 {
        None
    } else if !is_setting(opts.last()) {
        Some(opts.last())
    } else {
        last_unknown(opts.drop_last())
    }
}

/// `s1` is `s0` after `:set` with the options `opts` in turn: each known
/// one sets, clears or toggles the line numbers; an unknown one is
/// reported, the last such in the message.
pub open spec fn options_set(s0: App, s1: App, opts: Seq<Seq<char>>) -> bool {
    &&& s1 == (App { number: number_after(s0.number, opts), message: s1.message, ..s0 })
    &&& match last_unknown(opts) {
        Some(o) => s1.message@ == "unknown setting: "@ + o,
        None => s1.message@ == s0.message@,
    }
}

/// `s1` is `s0` after the `:` line `line` ran: a substitution; a line
/// number (`$` the last) to go to; `set` with options; `w`, `wt`, `wq`,
/// `x`, `q`, `q!`, `e` and `e!`, each with an optional file name; any
/// other word is reported.
pub open spec fn command_run(s0: App, s1: App, line: Vec<char>) -> bool {
    let w = words(line@);
    let t = trimmed(line@);
    let k = range_len(t, 0);
    let rest = t.skip(k);
    let substitution = s0.range_spec(t.take(k)) is Some && (rest == "&"@ || rest == "&&"@ || (rest.len() >= 2
        && rest[0] == 's' && rest[1] == '/'));
    if substitution {
        substituted(s0, s1, line@)
    } else if w.len() == 0 {
        s1 == s0
    } else if w[0] == "$"@ || parsed_usize(w[0]) is Some {
        let n = if w[0] == "$"@ { usize::MAX as int } else { parsed_usize(w[0])->0 as int };
        moved_to(s0, s1, (if n > 0 { n - 1 } else { 0 }) as usize)
    } else if w[0] == "set"@ {
        if w.len() == 1 {
            s1.message@ == "no setting specified"@ && s1 == (App { message: s1.message, ..s0 })
        } else {
            options_set(s0, s1, w.skip(1))
        }
    } else {
        let arg = if w.len() > 1 { Some(w[1]) } else { None };
        if w[0] == "w"@ {
            written(s0, s1, arg, false)
        } else if w[0] == "wt"@ {
            tree_written(s0, s1, arg)
        } else if w[0] == "wq"@ || w[0] == "x"@ {
            written(s0, s1, arg, true)
        } else if w[0] == "q"@ {
            if s0.modified {
                s1.message@ == "unsaved changes. Use :q! to discard"@ && s1 == (App { message: s1.message, ..s0 })
            } else {
                s1 == (App { quit: true, ..s0 })
            }
        } else if w[0] == "q!"@ {
            s1 == (App { quit: true, ..s0 })
        } else if w[0] == "e"@ {
            edited(s0, s1, arg)
        } else if w[0] == "e!"@ {
            edited(App { modified: false, ..s0 }, s1, arg)
        } else {
            s1.message@ == "unknown command: "@ + w[0] && s1 == (App { message: s1.message, ..s0 })
        }
    }
}

/// `s1` is `s0` once the caller read the file `path`, with `result`; `r`
/// tells whether the nodes were replaced. Text that reads and is not
/// nested too deeply replaces the nodes, the history going; otherwise
/// only the message changes, telling why.
pub open spec fn read_finished(s0: App, s1: App, path: Seq<char>, result: Result<String, String>, r: bool) -> bool {
    let refused = |message: Seq<char>| !r && s1 == (App { message: s1.message, ..s0 }) && s1.message@ == message;
    match result {
        Err(e) => refused("cannot read: "@ + e@),
        Ok(text) => if text@.len() > usize::MAX - 8 {
            refused("cannot read "@ + path + ": too long"@)
        } else {
            match parse_text(text@) {
                Err(e) => refused("cannot read "@ + path + ": "@ + error_text(e)),
                Ok((data, hoisted)) => if !tree_fits(data) {
                    refused("cannot read "@ + path + ": nested too deeply"@)
                } else {
                    &&& r
                    &&& s1 == (App {
                        nodes: s1.nodes,
                        cursor: 0,
                        cursor_col: 0,
                        modified: false,
                        source_mode: false,
                        undo: s1.undo,
                        redo: s1.redo,
                        held: None,
                        message: s1.message,
                        ..s0
                    })
                    &&& nodes_view(s1.nodes@) == nodes_from_spec(data)
                    &&& s1.undo@.len() == 0
                    &&& s1.redo@.len() == 0
                    &&& s1.message@ == "read "@ + path + (if hoisted > 0 {
                        ". Moved "@ + decimal(hoisted) + " comment(s) found inside expressions to the start of the line"@
                    } else {
                        Seq::empty()
                    })
                },
            }
        },
    }
}

impl App {
    /// One `:set` option: `number` and `nu` show line numbers,
    /// `nonumber` and `nonu` hide them, `number!` and `nu!` toggle them.
    pub fn set_option(&mut self, option: &Vec<char>)
        ensures
            (option@ == "number"@ || option@ == "nu"@) ==> *final(self) == (App { number: true, ..*old(self) }),
            (option@ == "nonumber"@ || option@ == "nonu"@) ==> *final(self) == (App { number: false, ..*old(self) }),
            (option@ == "number!"@ || option@ == "nu!"@) ==> *final(self) == (App { number: !old(self).number, ..*old(self) }),
            !(option@ == "number"@ || option@ == "nu"@ || option@ == "nonumber"@ || option@ == "nonu"@
                || option@ == "number!"@ || option@ == "nu!"@) ==> *final(self) == (App {
                message: final(self).message,
                ..*old(self)
            }) && final(self).message@ == "unknown setting: "@ + option@,
    {
        proof {
            reveal_strlit("number");
            reveal_strlit("nu");
            reveal_strlit("nonumber");
            reveal_strlit("nonu");
            reveal_strlit("number!");
            reveal_strlit("nu!");
            assert("number"@.len() == 6 && "nu"@.len() == 2 && "nonumber"@.len() == 8);
            assert("nonu"@.len() == 4 && "number!"@.len() == 7 && "nu!"@.len() == 3);
        }
        let o = option.as_slice();
        if same_text(o, "number") || same_text(o, "nu") {
            self.number = true;
        } else if same_text(o, "nonumber") || same_text(o, "nonu") {
            self.number = false;
        } else if same_text(o, "number!") || same_text(o, "nu!") {
            self.number = !self.number;
        } else {
            let mut message: Vec<char> = Vec::new();
            push_str(&mut message, "unknown setting: ");
            let mut copy = option.clone();
            assert(copy@ =~= option@);
            message.append(&mut copy);
            self.message = message;
        }
    }

    /// Opens a file at start: its path is kept, and when it exists, it is
    /// to be read.
    pub fn open(&mut self, path: String, exists: bool)
        ensures
            final(self).path matches Some(p) && p@ == path@,
            exists ==> (final(self).request matches Some(Request::Read { path: q }) && q@ == path@),
            !exists ==> final(self).request == old(self).request,
            *final(self) == (App { path: final(self).path, request: final(self).request, ..*old(self) }),
    {
        if exists {
            let copy = string_from(chars_of(path.as_str()).as_slice());
            self.request = Some(Request::Read { path: copy });
        }
        self.path = Some(path);
    }

    /// Writes the nodes: to the file named, which becomes the file, or to
    /// the file already named. The text is the source, one line per node
    /// in the source view, with a line break at the end; the caller is
    /// asked to write it, and to quit afterwards when `quit` is set. The
    /// answer is whether there was a file to write to.
    pub fn write(&mut self, argument: Option<&Vec<char>>, quit: bool) -> (r: bool)
        requires
            old(self).wf(),
        ensures
            final(self).wf(),
            written(*old(self), *final(self), arg_view(argument), quit),
            r == target_of(arg_view(argument), old(self).path) is Some,
    {
        match argument {
            Some(name) => {
                self.path = Some(string_from(name.as_slice()));
            },
            None => {},
        }
        let path = match &self.path {
            Some(p) => string_from(chars_of(p.as_str()).as_slice()),
            None => {
                self.message = chars_of("no file name");
                return false;
            },
        };
        let mut text = if self.source_mode {
            self.joined_text()
        } else {
            let (source, _) = self.to_scheme_with_positions();
            source
        };
        text.push('\n');
        self.request = Some(Request::Write { path, text: string_from(text.as_slice()), quit, tree: false });
        true
    }

    /// `:wt`: writes the tree as the view shows it, box-drawing and all, to
    /// the file named or the last one `:wt` wrote. In the source view the
    /// lines are read back into a tree first, and the view stays as it is.
    pub fn write_tree(&mut self, argument: Option<&Vec<char>>) -> (r: bool)
        requires
            old(self).wf(),
        ensures
            final(self).wf(),
            tree_written(*old(self), *final(self), arg_view(argument)),
            r == (target_of(arg_view(argument), old(self).tree_path) is Some && tree_output(*old(self)) is Ok),
    {
        match argument {
            Some(name) => {
                self.tree_path = Some(string_from(name.as_slice()));
            },
            None => {},
        }
        let path = match &self.tree_path {
            Some(p) => string_from(chars_of(p.as_str()).as_slice()),
            None => {
                self.message = chars_of("no file name");
                return false;
            },
        };
        let ghost mut tv: Seq<NodeView> = nodes_view(self.nodes@);
        let lines = if self.source_mode {
            let text = self.joined_text();
            if text.len() > usize::MAX - 8 {
                self.message = chars_of("cannot parse back into a tree: nested too deeply");
                return false;
            }
            let source = string_from(text.as_slice());
            let reading = match read(source.as_str()) {
                Ok(reading) => reading,
                Err(error) => {
                    let mut message: Vec<char> = Vec::new();
                    push_str(&mut message, "cannot parse back into a tree: ");
                    push_str(&mut message, error.as_str());
                    self.message = message;
                    return false;
                },
            };
            let nodes = match tree_of(&reading.data) {
                Some(nodes) => nodes,
                None => {
                    self.message = chars_of("cannot parse back into a tree: nested too deeply");
                    return false;
                },
            };
            let mut tree = App::new();
            tree.nodes = nodes;
            proof {
                assert(tree_output(*old(self)) == Ok::<Seq<char>, Seq<char>>(tree_text(nodes_view(tree.nodes@))));
                tv = nodes_view(tree.nodes@);
            }
            tree.tree_lines()
        } else {
            self.tree_lines()
        };
        assert(tree_output(*old(self)) == Ok::<Seq<char>, Seq<char>>(tree_text(tv)));
        assert(lines@.len() == tv.len());
        assert(forall|i: int| 0 <= i < lines@.len() ==> #[trigger] lines@[i]@ == super::view::line_spec(tv, i, false));
        let ghost rows = Seq::new(lines@.len(), |i: int| lines@[i]@);
        let mut text: Vec<char> = Vec::new();
        let mut k: usize = 0;
        while k < lines.len()
            invariant
                k <= lines@.len(),
                rows == Seq::new(lines@.len(), |i: int| lines@[i]@),
                text@ == joined_rows(rows.take(k as int)),
            decreases lines@.len() - k,
        {
            let ghost before = text@;
            if k > 0 {
                text.push('\n');
            }
            push_str(&mut text, lines[k].as_str());
            proof {
                let t = rows.take(k + 1);
                assert(t.drop_last() =~= rows.take(k as int));
                if k == 0 {
                    assert(text@ =~= t[0]);
                } else {
                    assert(text@ =~= joined_rows(t.drop_last()) + "\n"@ + t.last()) by {
                        reveal_strlit("\n");
                    }
                }
            }
            k = k + 1;
        }
        assert(rows.take(lines@.len() as int) =~= rows);
        assert(rows =~= Seq::new(tv.len(), |i: int| super::view::line_spec(tv, i, false)));
        text.push('\n');
        assert(text@ == tree_text(tv));
        self.request = Some(Request::Write { path, text: string_from(text.as_slice()), quit: false, tree: true });
        true
    }

    /// `:e`: reads the file named, which becomes the file, or the file
    /// already named; refused while there are unsaved changes. The caller
    /// is asked to read it and hand the text to `finish_read`.
    pub fn edit(&mut self, argument: Option<&Vec<char>>) -> (r: bool)
        requires
            old(self).wf(),
        ensures
            final(self).wf(),
            edited(*old(self), *final(self), arg_view(argument)),
            r == (!old(self).modified && target_of(arg_view(argument), old(self).path) is Some),
    {
        if self.modified {
            self.message = chars_of("unsaved changes. Use :e! to discard");
            return false;
        }
        match argument {
            Some(name) => {
                self.path = Some(string_from(name.as_slice()));
            },
            None => {},
        }
        let path = match &self.path {
            Some(p) => string_from(chars_of(p.as_str()).as_slice()),
            None => {
                self.message = chars_of("no file name");
                return false;
            },
        };
        self.request = Some(Request::Read { path });
        true
    }

    /// The text of a file the caller read, or why it could not: the text
    /// is read into nodes, which replace the ones edited, with the history
    /// dropped; text that does not read leaves everything but the message
    /// as it was. The answer is whether the nodes were replaced.
    pub fn finish_read(&mut self, path: &str, result: Result<String, String>) -> (r: bool)
        requires
            old(self).wf(),
        ensures
            final(self).wf(),
            read_finished(*old(self), *final(self), path@, result, r),
    {
        let text = match result {
            Ok(text) => text,
            Err(error) => {
                let mut message: Vec<char> = Vec::new();
                push_str(&mut message, "cannot read: ");
                push_str(&mut message, error.as_str());
                self.message = message;
                return false;
            },
        };
        let chars = chars_of(text.as_str());
        if chars.len() > usize::MAX - 8 {
            let mut message: Vec<char> = Vec::new();
            push_str(&mut message, "cannot read ");
            push_str(&mut message, path);
            push_str(&mut message, ": too long");
            self.message = message;
            return false;
        }
        let reading = match read(text.as_str()) {
            Ok(reading) => reading,
            Err(error) => {
                let mut message: Vec<char> = Vec::new();
                push_str(&mut message, "cannot read ");
                push_str(&mut message, path);
                push_str(&mut message, ": ");
                push_str(&mut message, error.as_str());
                self.message = message;
                return false;
            },
        };
        let nodes = match tree_of(&reading.data) {
            Some(nodes) => nodes,
            None => {
                let mut message: Vec<char> = Vec::new();
                push_str(&mut message, "cannot read ");
                push_str(&mut message, path);
                push_str(&mut message, ": nested too deeply");
                self.message = message;
                return false;
            },
        };
        assert(nodes@.len() == nodes_view(nodes@).len());
        self.nodes = nodes;
        self.cursor = 0;
        self.cursor_col = 0;
        self.modified = false;
        self.source_mode = false;
        self.undo = Vec::new();
        self.redo = Vec::new();
        self.held = None;
        let mut message: Vec<char> = Vec::new();
        push_str(&mut message, "read ");
        push_str(&mut message, path);
        if reading.hoisted > 0 {
            push_str(&mut message, ". Moved ");
            push_decimal(&mut message, reading.hoisted);
            push_str(&mut message, " comment(s) found inside expressions to the start of the line");
            assert(message@ =~= "read "@ + path@ + (". Moved "@ + decimal(reading.hoisted as nat)
                + " comment(s) found inside expressions to the start of the line"@));
        } else {
            assert(message@ =~= "read "@ + path@ + Seq::<char>::empty());
        }
        self.message = message;
        true
    }

    /// What came of a write the caller was asked for: on success the
    /// message tells the file, a source write clears the changed mark, and
    /// the editor quits when asked to; on failure the message tells why.
    pub fn finish_write(&mut self, path: &str, tree: bool, quit: bool, result: Result<(), String>)
        ensures
            result is Ok ==> final(self).modified == (old(self).modified && tree) && final(self).quit == (old(self).quit || quit)
                && final(self).message@ == "wrote "@ + path@,
            result matches Err(e) ==> final(self).modified == old(self).modified && final(self).quit == old(self).quit
                && final(self).message@ == "cannot write: "@ + e@,
            *final(self) == (App { modified: final(self).modified, quit: final(self).quit, message: final(self).message, ..*old(self) }),
    {
        let mut message: Vec<char> = Vec::new();
        match result {
            Ok(()) => {
                if !tree {
                    self.modified = false;
                }
                if quit {
                    self.quit = true;
                }
                push_str(&mut message, "wrote ");
                push_str(&mut message, path);
            },
            Err(error) => {
                push_str(&mut message, "cannot write: ");
                push_str(&mut message, error.as_str());
            },
        }
        self.message = message;
    }

    /// Runs a `:` line: a substitution; a line number (`$` the last) to
    /// go to; `set` with options; `w`, `wt`, `wq`, `x`, `q`, `q!`, `e` and
    /// `e!`, each with an optional file name.
    #[verifier::rlimit(40)]
    pub fn run_command(&mut self, line: &Vec<char>)
        requires
            old(self).wf(),
        ensures
            final(self).wf(),
            command_run(*old(self), *final(self), *line),
    {
        proof {
            reveal_strlit("$");
            reveal_strlit("set");
            reveal_strlit("q");
            reveal_strlit("q!");
            reveal_strlit("w");
            reveal_strlit("wt");
            reveal_strlit("wq");
            reveal_strlit("x");
            reveal_strlit("e");
            reveal_strlit("e!");
        }
        if self.substitute_command(line) {
            return;
        }
        let words = split_words(line);
        if words.len() == 0 {
            return;
        }
        let name = &words[0];
        let target = if same_text(name.as_slice(), "$") {
            Some(usize::MAX)
        } else {
            parse_usize(name.as_slice())
        };
        match target {
            Some(n) => {
                self.move_to(if n > 0 { n - 1 } else { 0 });
                return;
            },
            None => {},
        }
        if same_text(name.as_slice(), "set") {
            if words.len() == 1 {
                self.message = chars_of("no setting specified");
                return;
            }
            let ghost s0 = *self;
            let ghost w = words@.map_values(|x: Vec<char>| x@);
            assert(w =~= super::io::words(line@));
            assert(w.subrange(1, 1) =~= Seq::<Seq<char>>::empty());
            let mut k: usize = 1;
            while k < words.len()
                invariant
                    1 <= k <= words@.len(),
                    self.wf(),
                    w == words@.map_values(|x: Vec<char>| x@),
                    options_set(s0, *self, w.subrange(1, k as int)),
                decreases words@.len() - k,
            {
                self.set_option(&words[k]);
                proof {
                    let opts = w.subrange(1, k + 1);
                    assert(opts.drop_last() =~= w.subrange(1, k as int));
                    assert(opts.last() == words@[k as int]@);
                }
                k = k + 1;
            }
            assert(w.subrange(1, words@.len() as int) =~= w.skip(1));
            return;
        }
        let argument = if words.len() > 1 { Some(&words[1]) } else { None };
        let n = name.as_slice();
        if same_text(n, "w") {
            self.write(argument, false);
        } else if same_text(n, "wt") {
            self.write_tree(argument);
        } else if same_text(n, "wq") || same_text(n, "x") {
            self.write(argument, true);
        } else if same_text(n, "q") {
            if self.modified {
                self.message = chars_of("unsaved changes. Use :q! to discard");
            } else {
                self.quit = true;
            }
        } else if same_text(n, "q!") {
            self.quit = true;
        } else if same_text(n, "e") {
            self.edit(argument);
        } else if same_text(n, "e!") {
            self.modified = false;
            self.edit(argument);
        } else {
            let mut message: Vec<char> = Vec::new();
            push_str(&mut message, "unknown command: ");
            let mut copy = name.clone();
            assert(copy@ =~= name@);
            message.append(&mut copy);
            self.message = message;
        }
    }
}

} // verus!
