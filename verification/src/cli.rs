//! The console: reading a command line, paging through the history of
//! stored requests, and choosing what to do with one stored request.
use vstd::prelude::*;
use chrono::TimeZone;
use crate::numbers::{decimal, i32_text, parse_i32, parse_i64, std_parse_i32, std_parse_i64};
use crate::text::{
    chars_eq, chars_of, concat, first_word, first_word_chars, split, split_chars,
    starts_with_chars, string_of, trim, trim_chars, views,
};

verus! {

// ---------------------------------------------------------------------
// The history window
// ---------------------------------------------------------------------

/// The window of the request history that `history` shows: entries from
/// `start` on, up to `end`, ten apart.
#[derive(Clone, Copy)]
pub struct History {
    start: i32,
    end: i32,
}

impl History {
    /// The window always spans ten entries and starts at a multiple of ten.
    #[verifier::type_invariant]
    spec fn paged(self) -> bool {
        &&& self.end == self.start + 10
        &&& self.start % 10 == 0
    }

    /// The first entry of the window.
    pub closed spec fn first(self) -> int {
        self.start as int
    }

    /// The end of the window.
    pub closed spec fn last(self) -> int {
        self.end as int
    }

    /// The first page: entries from 0 on.
    pub fn new() -> (h: History)
        ensures
            h.first() == 0,
            h.last() == 10,
    {
        History { start: 0, end: 10 }
    }

    /// The first entry of the window.
    pub fn start(&self) -> (r: i32)
        ensures
            r == self.first(),
            self.last() == self.first() + 10,
            self.first() % 10 == 0,
    {
        proof {
            use_type_invariant(self);
        }
        self.start
    }

    /// The end of the window.
    pub fn end(&self) -> (r: i32)
        ensures
            r == self.last(),
            self.last() == self.first() + 10,
            self.first() % 10 == 0,
    {
        proof {
            use_type_invariant(self);
        }
        self.end
    }
}

/// The console's state: where the history window stands.
#[derive(Clone, Copy)]
pub struct Config {
    history: History,
}

impl Config {
    /// The initial state: the first page of the history.
    pub fn new() -> (c: Config)
        ensures
            c.window().first() == 0,
            c.window().last() == 10,
    {
        Config { history: History::new() }
    }

    /// The history window.
    pub closed spec fn window(self) -> History {
        self.history
    }

    /// The history window.
    pub fn history(&self) -> (h: History)
        ensures
            h == self.window(),
    {
        self.history
    }
}

// ---------------------------------------------------------------------
// Console commands
// ---------------------------------------------------------------------

/// What a console line asks for, by its first word.
#[derive(Clone, Copy, Debug, PartialEq, Eq, Structural)]
pub enum Command {
    Help,
    Request,
    History,
    Other,
}

/// The command that a first word names.
pub open spec fn command_of(word: Seq<char>) -> Command {
    if word == "help"@ {
        Command::Help
    } else if word == "request"@ {
        Command::Request
    } else if word == "history"@ {
        Command::History
    } else {
        Command::Other
    }
}

/// Reads a console line: the line without white space at its ends, and the
/// command that its first word (up to the first space) names.
pub fn read_command(line: &str) -> (r: (Command, String))
    ensures
        r.1@ == trim(line@),
        r.0 == command_of(first_word(trim(line@))),
{
    let t = trim_chars(&chars_of(line));
    let w = first_word_chars(&t);
    let c = if chars_eq(&w, &chars_of("help")) {
        Command::Help
    } else if chars_eq(&w, &chars_of("request")) {
        Command::Request
    } else if chars_eq(&w, &chars_of("history")) {
        Command::History
    } else {
        Command::Other
    };
    (c, string_of(&t))
}

/// The words of a line: the pieces between single spaces.
pub open spec fn words(line: Seq<char>) -> Seq<Seq<char>> {
    split(line, " "@)
}

/// What `history` does with the window for its line: `page +` moves it
/// ten entries on, `page -` ten entries back but not before the start,
/// `page N` moves it to page `N` (entries from `10 N - 10`), `page` with
/// anything else keeps it, and `erase` asks for the history to be erased.
/// The result is the new start, the new end and whether to erase.
pub open spec fn page_step(line: Seq<char>, start: int, end: int) -> (int, int, bool) {
    let w = words(line);
    if w.len() >= 3 {
        if w[1] == "page"@ {
            if w[2] == "+"@ {
                (start + 10, end + 10, false)
            } else if w[2] == "-"@ {
                if start < 10 {
                    (0, 10, false)
                } else {
                    (start - 10, end - 10, false)
                }
            } else {
                let num = match parse_i32(w[2]) {
                    Some(v) => v as int,
                    None => (start + 10) / 10,
                };
                (num * 10 - 10, num * 10 - 10 + 10, false)
            }
        } else {
            (start, end, false)
        }
    } else if w.len() >= 2 && w[1] == "erase"@ {
        (start, end, true)
    } else {
        (start, end, false)
    }
}

/// The step stays within `i32` (the console stops on an overflow).
pub open spec fn page_step_fits(line: Seq<char>, start: int, end: int) -> bool {
    let w = words(line);
    w.len() >= 3 && w[1] == "page"@ ==> {
        if w[2] == "+"@ {
            end + 10 <= i32::MAX
        } else if w[2] == "-"@ {
            true
        } else {
            match parse_i32(w[2]) {
                Some(v) => i32::MIN <= v * 10 - 10 && v * 10 <= i32::MAX,
                None => true,
            }
        }
    }
}

/// Whether the step for `line` stays within `i32`.
pub fn page_step_fits_exec(line: &str, config: &Config) -> (r: bool)
    ensures
        r == page_step_fits(line@, config.window().first(), config.window().last()),
{
    let end = config.history.end();
    proof {
        reveal_strlit(" ");
    }
    let w = split_chars(&chars_of(line), &chars_of(" "));
    if w.len() >= 3 && chars_eq(&w[1], &chars_of("page")) {
        if chars_eq(&w[2], &chars_of("+")) {
            end <= i32::MAX - 10
        } else if chars_eq(&w[2], &chars_of("-")) {
            true
        } else {
            match std_parse_i32(string_of(&w[2]).as_str()) {
                Some(v) => -214748363 <= v && v <= 214748364,
                None => true,
            }
        }
    } else {
        true
    }
}

/// Reads the arguments of `history` and moves the window as `page_step`
/// says; returns the new start, the new end and whether to erase.
pub fn parse_line(line: &str, config: &mut Config) -> (r: (i32, i32, bool))
    requires
        page_step_fits(line@, old(config).window().first(), old(config).window().last()),
    ensures
        (r.0 as int, r.1 as int, r.2) == page_step(
            line@,
            old(config).window().first(),
            old(config).window().last(),
        ),
        final(config).window().first() == r.0,
        final(config).window().last() == r.1,
{
    let mut start = config.history.start();
    let mut end = config.history.end();
    proof {
        reveal_strlit(" ");
    }
    let w = split_chars(&chars_of(line), &chars_of(" "));
    let mut need_erase = false;
    if w.len() >= 3 {
        if chars_eq(&w[1], &chars_of("page")) {
            if chars_eq(&w[2], &chars_of("+")) {
                start = start + 10;
                end = end + 10;
            } else if chars_eq(&w[2], &chars_of("-")) {
                if start < 10 {
                    start = 0;
                    end = 10;
                } else {
                    start = start - 10;
                    end = end - 10;
                }
            } else {
                let num = match std_parse_i32(string_of(&w[2]).as_str()) {
                    Some(v) => v,
                    None => (start + 10) / 10,
                };
                start = num * 10 - 10;
                end = start + 10;
            }
        }
    } else if w.len() >= 2 && chars_eq(&w[1], &chars_of("erase")) {
        need_erase = true;
    }
    config.history = History { start, end };
    (start, end, need_erase)
}

/// The page argument that `history` refuses: the third word of
/// `history page X` where `X` is neither `+`, `-` nor an `i32`; the window
/// then stays on its page.
pub open spec fn refused_page(line: Seq<char>) -> Option<Seq<char>> {
    let w = words(line);
    if w.len() >= 3 && w[1] == "page"@ && w[2] != "+"@ && w[2] != "-"@ && parse_i32(w[2]) is None {
        Some(w[2])
    } else {
        None
    }
}

/// The page argument that `history` refuses for the line, with the page
/// that is kept in its place (the current one); `None` where the line
/// refuses none.
pub fn refused_page_arg(line: &str, config: &Config) -> (r: Option<(String, i32)>)
    ensures
        match r {
            Some((arg, page)) => refused_page(line@) == Some(arg@) && page == (
            config.window().first() + 10) / 10,
            None => refused_page(line@) is None,
        },
{
    let start = config.history.start();
    proof {
        reveal_strlit(" ");
    }
    let w = split_chars(&chars_of(line), &chars_of(" "));
    if w.len() >= 3 && chars_eq(&w[1], &chars_of("page")) && !chars_eq(&w[2], &chars_of("+"))
        && !chars_eq(&w[2], &chars_of("-")) {
        let arg = string_of(&w[2]);
        if std_parse_i32(arg.as_str()).is_none() {
            return Some((arg, (start + 10) / 10));
        }
    }
    None
}

// ---------------------------------------------------------------------
// One console line after another
// ---------------------------------------------------------------------

/// What the console does for one line.
#[derive(Debug)]
pub enum ConsoleAction {
    /// Show the help.
    Help,
    /// Handle the `request` line (given without white space at its ends).
    Request(String),
    /// Show the history window from `start` to `end`, or erase the history.
    History { start: i32, end: i32, erase: bool },
    /// Nothing: the line names no command.
    Nothing,
}

/// The window after one console line: a `history` line moves it as
/// `page_step` says; any other line keeps it.
pub open spec fn line_step(w: (int, int), line: Seq<char>) -> (int, int) {
    let t = trim(line);
    if command_of(first_word(t)) == Command::History {
        let r = page_step(t, w.0, w.1);
        (r.0, r.1)
    } else {
        w
    }
}

/// The window after the console lines, in order, from the first page.
pub open spec fn window_after(lines: Seq<Seq<char>>) -> (int, int)
    decreases lines.len(),
{
    if lines.len() == 0 {
        (0, 10)
    } else {
        line_step(window_after(lines.drop_last()), lines.last())
    }
}

/// The step for one console line stays within `i32`.
pub open spec fn line_fits(w: (int, int), line: Seq<char>) -> bool {
    let t = trim(line);
    command_of(first_word(t)) == Command::History ==> page_step_fits(t, w.0, w.1)
}

/// Every line of the sequence steps within `i32` from the window before it.
pub open spec fn lines_fit(lines: Seq<Seq<char>>) -> bool {
    forall|i: int| 0 <= i < lines.len() ==> line_fits(window_after(#[trigger] lines.take(i)), lines[i])
}

/// Handles one console line: reads its command, and for `history` moves the
/// window as `parse_line` does. The window carries over to the next line.
pub fn console_step(config: &mut Config, line: &str) -> (r: ConsoleAction)
    requires
        line_fits((old(config).window().first(), old(config).window().last()), line@),
    ensures
        (final(config).window().first(), final(config).window().last()) == line_step(
            (old(config).window().first(), old(config).window().last()),
            line@,
        ),
        ({
            let t = trim(line@);
            let w = (old(config).window().first(), old(config).window().last());
            match r {
                ConsoleAction::Help => command_of(first_word(t)) == Command::Help,
                ConsoleAction::Request(l) => command_of(first_word(t)) == Command::Request && l@ == t,
                ConsoleAction::History { start, end, erase } => command_of(first_word(t))
                    == Command::History && (start as int, end as int, erase) == page_step(t, w.0, w.1),
                ConsoleAction::Nothing => command_of(first_word(t)) == Command::Other,
            }
        }),
{
    let (command, t) = read_command(line);
    match command {
        Command::Help => ConsoleAction::Help,
        Command::Request => ConsoleAction::Request(t),
        Command::History => {
            let (start, end, erase) = parse_line(t.as_str(), config);
            ConsoleAction::History { start, end, erase }
        },
        Command::Other => ConsoleAction::Nothing,
    }
}

/// Adding a line to the console's lines moves the window by that line.
pub proof fn lemma_window_after_push(lines: Seq<Seq<char>>, line: Seq<char>)
    ensures
        window_after(lines.push(line)) == line_step(window_after(lines), line),
{
    assert(lines.push(line).drop_last() =~= lines);
}

/// The window that the console carries from line to line always spans ten
/// entries, starts at a multiple of ten and stays within `i32`: the first
/// page before any line, and kept by every line.
pub proof fn lemma_window_after_paged(lines: Seq<Seq<char>>)
    requires
        lines_fit(lines),
    ensures
        window_after(lines).1 == window_after(lines).0 + 10,
        window_after(lines).0 % 10 == 0,
        i32::MIN <= window_after(lines).0,
        window_after(lines).1 <= i32::MAX,
    decreases lines.len(),
{
    if lines.len() > 0 {
        let before = lines.drop_last();
        assert forall|i: int| 0 <= i < before.len() implies line_fits(
            window_after(#[trigger] before.take(i)),
            before[i],
        ) by {
            assert(before.take(i) =~= lines.take(i));
            assert(line_fits(window_after(lines.take(i)), lines[i]));
        }
        lemma_window_after_paged(before);
        assert(lines.take(lines.len() - 1) =~= before);
        assert(line_fits(window_after(lines.take(lines.len() - 1)), lines[lines.len() - 1]));
        let w = window_after(before);
        let t = trim(lines.last());
        if command_of(first_word(t)) == Command::History {
            let num = (w.0 + 10) / 10;
            assert(num * 10 == w.0 + 10) by (nonlinear_arith)
                requires
                    w.0 % 10 == 0,
                    num == (w.0 + 10) / 10,
            ;
            let v = parse_i32(words(t)[2]);
            if v is Some {
                let n = v->0 as int;
                assert((n * 10 - 10) % 10 == 0) by (nonlinear_arith);
            }
        }
    }
}

/// Whether the console line is a `history` command.
pub open spec fn is_history_line(line: Seq<char>) -> bool {
    command_of(first_word(trim(line))) == Command::History
}

/// The `history` lines among the console's lines, in order.
pub open spec fn history_lines(lines: Seq<Seq<char>>) -> Seq<Seq<char>> {
    lines.filter(|l: Seq<char>| is_history_line(l))
}

/// Only `history` lines move the window: the window after the console's
/// lines is the window after their `history` lines alone, from the first
/// page.
pub proof fn lemma_window_after_history_lines(lines: Seq<Seq<char>>)
    ensures
        window_after(lines) == window_after(history_lines(lines)),
    decreases lines.len(),
{
    reveal(Seq::filter);
    if lines.len() > 0 {
        lemma_window_after_history_lines(lines.drop_last());
        let f = history_lines(lines.drop_last());
        if is_history_line(lines.last()) {
            assert(history_lines(lines) == f.push(lines.last()));
            lemma_window_after_push(f, lines.last());
        } else {
            assert(history_lines(lines) == f);
        }
    }
}

/// The help the console shows for `help`: its commands.
pub open spec fn help_message() -> Seq<char> {
    "help \u{2013} \u{43f}\u{43e}\u{43a}\u{430}\u{437}\u{430}\u{442}\u{44c} \u{441}\u{43f}\u{440}\u{430}\u{432}\u{43a}\u{443}\nhistory \u{2013} \u{438}\u{441}\u{442}\u{43e}\u{440}\u{438}\u{44f} \u{437}\u{430}\u{43f}\u{440}\u{43e}\u{441}\u{43e}\u{432}\nhistory page +/-/int \u{2013} \u{43d}\u{430}\u{432}\u{438}\u{433}\u{430}\u{446}\u{438}\u{44f} \u{43f}\u{43e} \u{438}\u{441}\u{442}\u{43e}\u{440}\u{438}\u{438}\nhistory erase \u{2013} \u{43e}\u{447}\u{438}\u{441}\u{442}\u{438}\u{442}\u{44c} \u{438}\u{441}\u{442}\u{43e}\u{440}\u{438}\u{44e}\nrequest <id> \u{2013} \u{441}\u{43e}\u{445}\u{440}\u{430}\u{43d}\u{435}\u{43d}\u{43d}\u{44b}\u{439} \u{437}\u{430}\u{43f}\u{440}\u{43e}\u{441}\nrequest <id> send \u{2013} \u{43e}\u{442}\u{43f}\u{440}\u{430}\u{432}\u{438}\u{442}\u{44c} \u{441}\u{43e}\u{445}\u{440}\u{430}\u{43d}\u{435}\u{43d}\u{43d}\u{44b}\u{439} \u{437}\u{430}\u{43f}\u{440}\u{43e}\u{441}\nrequest <id> scan \u{2013} \u{43f}\u{440}\u{43e}\u{432}\u{435}\u{440}\u{438}\u{442}\u{44c} \u{43d}\u{430} \u{443}\u{44f}\u{437}\u{432}\u{438}\u{43c}\u{43e}\u{441}\u{442}\u{438}\n"@
}

/// The help the console shows for `help`.
pub fn help_text() -> (r: String)
    ensures
        r@ == help_message(),
{
    string_of(&chars_of("help \u{2013} \u{43f}\u{43e}\u{43a}\u{430}\u{437}\u{430}\u{442}\u{44c} \u{441}\u{43f}\u{440}\u{430}\u{432}\u{43a}\u{443}\nhistory \u{2013} \u{438}\u{441}\u{442}\u{43e}\u{440}\u{438}\u{44f} \u{437}\u{430}\u{43f}\u{440}\u{43e}\u{441}\u{43e}\u{432}\nhistory page +/-/int \u{2013} \u{43d}\u{430}\u{432}\u{438}\u{433}\u{430}\u{446}\u{438}\u{44f} \u{43f}\u{43e} \u{438}\u{441}\u{442}\u{43e}\u{440}\u{438}\u{438}\nhistory erase \u{2013} \u{43e}\u{447}\u{438}\u{441}\u{442}\u{438}\u{442}\u{44c} \u{438}\u{441}\u{442}\u{43e}\u{440}\u{438}\u{44e}\nrequest <id> \u{2013} \u{441}\u{43e}\u{445}\u{440}\u{430}\u{43d}\u{435}\u{43d}\u{43d}\u{44b}\u{439} \u{437}\u{430}\u{43f}\u{440}\u{43e}\u{441}\nrequest <id> send \u{2013} \u{43e}\u{442}\u{43f}\u{440}\u{430}\u{432}\u{438}\u{442}\u{44c} \u{441}\u{43e}\u{445}\u{440}\u{430}\u{43d}\u{435}\u{43d}\u{43d}\u{44b}\u{439} \u{437}\u{430}\u{43f}\u{440}\u{43e}\u{441}\nrequest <id> scan \u{2013} \u{43f}\u{440}\u{43e}\u{432}\u{435}\u{440}\u{438}\u{442}\u{44c} \u{43d}\u{430} \u{443}\u{44f}\u{437}\u{432}\u{438}\u{43c}\u{43e}\u{441}\u{442}\u{438}\n"))
}

/// The page number that the window shows: its start over ten, plus one.
pub open spec fn page_number(h: History) -> int {
    h.first() / 10 + 1
}

/// The header row of the history table: `Id`, `Method`, `Url` and the
/// page number.
pub fn table_header(config: &Config) -> (r: Vec<String>)
    ensures
        r@.len() == 4,
        r@[0]@ == "Id"@,
        r@[1]@ == "Method"@,
        r@[2]@ == "Url"@,
        r@[3]@ == "page: "@ + decimal(page_number(config.window())),
{
    let start = config.history.start();
    let n = start / 10 + 1;
    let label = concat(&chars_of("page: "), &chars_of(i32_text(n).as_str()));
    let mut r: Vec<String> = Vec::new();
    r.push(string_of(&chars_of("Id")));
    r.push(string_of(&chars_of("Method")));
    r.push(string_of(&chars_of("Url")));
    r.push(string_of(&label));
    r
}

// ---------------------------------------------------------------------
// Laws of the history window
// ---------------------------------------------------------------------

/// What `history` does with the window, case by case: `page +` moves it
/// exactly one page on, `page -` exactly one page back (to the first page
/// from a window that starts before entry 10), `page N` to page `N`,
/// `erase` keeps it and asks for erasing, and any other line keeps it.
pub proof fn lemma_page_step_cases(line: Seq<char>, start: int, end: int)
    ensures
        ({
            let w = words(line);
            let r = page_step(line, start, end);
            &&& (w.len() >= 3 && w[1] == "page"@ && w[2] == "+"@) ==> r == (start + 10, end + 10, false)
            &&& (w.len() >= 3 && w[1] == "page"@ && w[2] == "-"@ && start >= 10) ==> r == (
                start - 10,
                end - 10,
                false,
            )
            &&& (w.len() >= 3 && w[1] == "page"@ && w[2] == "-"@ && start < 10) ==> r == (0int, 10int, false)
            &&& (w.len() >= 3 && w[1] == "page"@ && parse_i32(w[2]) is Some) ==> r == (
                10 * parse_i32(w[2])->0 - 10,
                10 * parse_i32(w[2])->0,
                false,
            )
            &&& (w.len() == 2 && w[1] == "erase"@) ==> r == (start, end, true)
            &&& (w.len() < 2 || (w.len() == 2 && w[1] != "erase"@) || (w.len() >= 3 && w[1]
                != "page"@)) ==> r == (start, end, false)
        }),
{
    reveal_strlit("+");
    reveal_strlit("-");
    assert("+"@[0] != "-"@[0]);
    let w = words(line);
    if w.len() >= 3 && w[1] == "page"@ && parse_i32(w[2]) is Some {
        if w[2] == "+"@ {
            assert(w[2].len() == 1 && w[2][0] == '+');
            assert(parse_i32(w[2]) is None);
        }
        if w[2] == "-"@ {
            assert(w[2].len() == 1 && w[2][0] == '-');
            assert(parse_i32(w[2]) is None);
        }
    }
}

/// A found stored file's name starts with the id, and no earlier name
/// does; where none is found, no name starts with the id.
pub proof fn lemma_first_with_prefix(names: Seq<Seq<char>>, id: Seq<char>, i: int)
    requires
        0 <= i,
    ensures
        match first_with_prefix(names, id, i) {
            Some(k) => {
                &&& i <= k < names.len()
                &&& id.len() <= names[k].len()
                &&& names[k].subrange(0, id.len() as int) == id
                &&& forall|j: int|
                    i <= j < k ==> !(id.len() <= names[j].len() && #[trigger] names[j].subrange(
                        0,
                        id.len() as int,
                    ) == id)
            },
            None => forall|j: int|
                i <= j < names.len() ==> !(id.len() <= names[j].len() && #[trigger] names[j].subrange(
                    0,
                    id.len() as int,
                ) == id),
        },
    decreases names.len() - i,
{
    if i < names.len() {
        lemma_first_with_prefix(names, id, i + 1);
        if id.len() <= names[i].len() {
            assert(names[i].take(id.len() as int) =~= names[i].subrange(0, id.len() as int));
        }
    }
}

/// `page +` and then `page -` bring a window that starts at or after the
/// first entry back where it was.
pub proof fn lemma_page_forward_back(plus: Seq<char>, minus: Seq<char>, start: int, end: int)
    requires
        words(plus).len() >= 3 && words(plus)[1] == "page"@ && words(plus)[2] == "+"@,
        words(minus).len() >= 3 && words(minus)[1] == "page"@ && words(minus)[2] == "-"@,
        0 <= start,
        end == start + 10,
    ensures
        ({
            let (s1, e1, _) = page_step(plus, start, end);
            let (s2, e2, x) = page_step(minus, s1, e1);
            s2 == start && e2 == end && !x
        }),
{
    reveal_strlit("+");
    reveal_strlit("-");
    assert("+"@[0] != "-"@[0]);
}

/// `page N` shows page `N`.
pub proof fn lemma_page_goes_to(line: Seq<char>, start: int, end: int, n: i32)
    requires
        words(line).len() >= 3,
        words(line)[1] == "page"@,
        parse_i32(words(line)[2]) == Some(n),
    ensures
        page_step(line, start, end).0 == 10 * n - 10,
        page_step(line, start, end).1 == page_step(line, start, end).0 + 10,
        page_step(line, start, end).0 / 10 + 1 == n,
{
    assert((10 * n - 10) / 10 == n - 1) by (nonlinear_arith);
    reveal_strlit("+");
    reveal_strlit("-");
    let w = words(line);
    if w[2] == "+"@ {
        assert(w[2].len() == 1 && w[2][0] == '+');
        assert(parse_i32(w[2]) is None);
    }
    if w[2] == "-"@ {
        assert(w[2].len() == 1 && w[2][0] == '-');
        assert(parse_i32(w[2]) is None);
    }
}

/// `page` with an argument that is neither `+`, `-` nor a number keeps the
/// window.
pub proof fn lemma_page_bad_number_keeps(line: Seq<char>, start: int, end: int)
    requires
        words(line).len() >= 3,
        words(line)[1] == "page"@,
        words(line)[2] != "+"@,
        words(line)[2] != "-"@,
        parse_i32(words(line)[2]) is None,
        start % 10 == 0,
        end == start + 10,
    ensures
        page_step(line, start, end) == (start, end, false),
{
    let num = (start + 10) / 10;
    assert(num * 10 == start + 10) by (nonlinear_arith)
        requires
            start % 10 == 0,
            num == (start + 10) / 10,
    ;
}

// ---------------------------------------------------------------------
// The request command
// ---------------------------------------------------------------------

/// What `request` does: shows its usage, or shows, scans or sends the
/// stored request with the given id.
#[derive(Debug)]
pub enum RequestAction {
    Usage,
    Show(String),
    Scan(String),
    Send(String),
}

/// The action of a `request` line: with fewer than two words its usage;
/// else the id is the second word, and a third and last word `scan` or
/// `send` scans or sends, anything else shows.
pub open spec fn request_action_spec(line: Seq<char>) -> (int, Seq<char>) {
    let w = words(line);
    if w.len() >= 2 {
        if w.len() == 3 && w[2] == "scan"@ {
            (2, w[1])
        } else if w.len() == 3 && w[2] == "send"@ {
            (3, w[1])
        } else {
            (1, w[1])
        }
    } else {
        (0, Seq::empty())
    }
}

/// The action a `RequestAction` stands for, as a number and an id.
pub open spec fn action_code(a: RequestAction) -> (int, Seq<char>) {
    match a {
        RequestAction::Usage => (0, Seq::empty()),
        RequestAction::Show(id) => (1, id@),
        RequestAction::Scan(id) => (2, id@),
        RequestAction::Send(id) => (3, id@),
    }
}

/// Reads a `request` line.
pub fn request_action(line: &str) -> (r: RequestAction)
    ensures
        action_code(r) == request_action_spec(line@),
{
    proof {
        reveal_strlit(" ");
    }
    let w = split_chars(&chars_of(line), &chars_of(" "));
    if w.len() >= 2 {
        let id = string_of(&w[1]);
        if w.len() == 3 && chars_eq(&w[2], &chars_of("scan")) {
            RequestAction::Scan(id)
        } else if w.len() == 3 && chars_eq(&w[2], &chars_of("send")) {
            RequestAction::Send(id)
        } else {
            RequestAction::Show(id)
        }
    } else {
        RequestAction::Usage
    }
}

/// The views of a vector of strings.
pub open spec fn string_views(v: Seq<String>) -> Seq<Seq<char>> {
    v.map_values(|s: String| s@)
}

/// The first stored file whose name starts with the id.
pub open spec fn first_with_prefix(names: Seq<Seq<char>>, id: Seq<char>, i: int) -> Option<int>
    decreases names.len() - i,
{
    if i < 0 || i >= names.len() {
        None
    } else if id.len() <= names[i].len() && names[i].take(id.len() as int) == id {
        Some(i)
    } else {
        first_with_prefix(names, id, i + 1)
    }
}

/// The index of the first file name that starts with `id`.
pub fn find_request_file(names: &Vec<String>, id: &str) -> (r: Option<usize>)
    ensures
        r matches Some(i) ==> first_with_prefix(string_views(names@), id@, 0) == Some(i as int),
        r is None ==> first_with_prefix(string_views(names@), id@, 0) is None,
{
    let p = chars_of(id);
    let ghost ns = string_views(names@);
    let mut i: usize = names.len();
    let mut found: Option<usize> = None;
    while i > 0
        invariant
            i <= names.len(),
            ns == string_views(names@),
            p@ == id@,
            found matches Some(k) ==> first_with_prefix(ns, id@, i as int) == Some(k as int),
            found is None ==> first_with_prefix(ns, id@, i as int) is None,
        decreases i,
    {
        i = i - 1;
        let n = chars_of(names[i].as_str());
        assert(ns[i as int] == names@[i as int]@);
        if starts_with_chars(&n, &p) {
            found = Some(i);
        }
    }
    found
}

/// Where a stored request file lies: `./requests/` and its name.
pub fn request_file_path(name: &str) -> (r: String)
    ensures
        r@ == "./requests/"@ + name@,
{
    string_of(&concat(&chars_of("./requests/"), &chars_of(name)))
}

// ---------------------------------------------------------------------
// The history listing
// ---------------------------------------------------------------------

/// The fields of a stored file name: the pieces between `|||`.
pub open spec fn name_fields(name: Seq<char>) -> Seq<Seq<char>> {
    split(name, "|||"@)
}

/// The entries of the window, from the `i`-th file name on, `cur` being
/// the number of entries counted so far. A name with fewer than four fields
/// that stands at or after the start is passed over without being counted;
/// the listing stops once the count passes the end.
pub open spec fn listed_from(
    names: Seq<Seq<char>>,
    i: int,
    cur: int,
    start: int,
    end: int,
) -> Seq<Seq<Seq<char>>>
    decreases names.len() - i,
{
    if i < 0 || i >= names.len() {
        Seq::empty()
    } else {
        let f = name_fields(names[i]);
        if cur >= start && f.len() < 4 {
            listed_from(names, i + 1, cur, start, end)
        } else {
            let here: Seq<Seq<Seq<char>>> = if cur >= start {
                seq![f.take(4)]
            } else {
                Seq::empty()
            };
            if cur + 1 > end {
                here
            } else {
                here + listed_from(names, i + 1, cur + 1, start, end)
            }
        }
    }
}

/// The entries the window lists: the first four fields of each.
pub open spec fn listed(names: Seq<Seq<char>>, start: int, end: int) -> Seq<Seq<Seq<char>>> {
    listed_from(names, 0, 0, start, end)
}

/// The number of names that the window lists from name `i` on, when every
/// name has four fields: those from `max(i, start)` up to `end` inclusive.
pub open spec fn window_count(len: int, i: int, start: int, end: int) -> int {
    let hi = if len < end + 1 {
        len
    } else {
        end + 1
    };
    let lo = if i < start {
        start
    } else {
        i
    };
    if hi > lo {
        hi - lo
    } else {
        0
    }
}

proof fn lemma_listed_from_window(names: Seq<Seq<char>>, i: int, start: int, end: int)
    requires
        0 <= i <= end,
        0 <= start <= end,
        forall|j: int| 0 <= j < names.len() ==> (#[trigger] name_fields(names[j])).len() >= 4,
    ensures
        ({
            let lo = if i < start {
                start
            } else {
                i
            };
            listed_from(names, i, i, start, end) == Seq::new(
                window_count(names.len() as int, i, start, end) as nat,
                |j: int| name_fields(names[lo + j]).take(4),
            )
        }),
    decreases names.len() - i,
{
    let lo = if i < start {
        start
    } else {
        i
    };
    let want = Seq::new(
        window_count(names.len() as int, i, start, end) as nat,
        |j: int| name_fields(names[lo + j]).take(4),
    );
    if i >= names.len() {
        assert(want =~= Seq::<Seq<Seq<char>>>::empty());
    } else {
        let f = name_fields(names[i]);
        assert(f.len() >= 4);
        let here: Seq<Seq<Seq<char>>> = if i >= start {
            seq![f.take(4)]
        } else {
            Seq::empty()
        };
        if i + 1 > end {
            assert(listed_from(names, i, i, start, end) == here);
            assert(want =~= here);
        } else {
            lemma_listed_from_window(names, i + 1, start, end);
            assert(listed_from(names, i, i, start, end) == here + listed_from(
                names,
                i + 1,
                i + 1,
                start,
                end,
            ));
            assert(want =~= here + listed_from(names, i + 1, i + 1, start, end));
        }
    }
}

/// Where every stored name has its four fields, the window from `start` to
/// `end` (with `0 <= start <= end`) lists the names from position `start`
/// up to position `end` inclusive, as many as there are, each by its first
/// four fields, in their order.
pub proof fn lemma_listed_window(names: Seq<Seq<char>>, start: int, end: int)
    requires
        0 <= start <= end,
        forall|j: int| 0 <= j < names.len() ==> (#[trigger] name_fields(names[j])).len() >= 4,
    ensures
        listed(names, start, end) == Seq::new(
            window_count(names.len() as int, 0, start, end) as nat,
            |j: int| name_fields(names[start + j]).take(4),
        ),
        names.len() > end ==> listed(names, start, end).len() == end + 1 - start,
{
    lemma_listed_from_window(names, 0, start, end);
}

/// What a `request` line does, case by case over its words: fewer than two
/// words show the usage; else the second word is the id, and a third and
/// last word `scan` scans, `send` sends, and anything else shows.
pub proof fn lemma_request_action_cases(line: Seq<char>)
    ensures
        ({
            let w = words(line);
            let r = request_action_spec(line);
            &&& w.len() < 2 ==> r.0 == 0
            &&& w.len() >= 2 ==> r.1 == w[1]
            &&& (w.len() == 3 && w[2] == "scan"@) ==> r.0 == 2
            &&& (w.len() == 3 && w[2] == "send"@) ==> r.0 == 3
            &&& (w.len() >= 2 && !(w.len() == 3 && (w[2] == "scan"@ || w[2] == "send"@))) ==> r.0 == 1
        }),
{
    reveal_strlit("scan");
    reveal_strlit("send");
    assert("scan"@[1] != "send"@[1]);
}

/// The views of rows of strings.
pub open spec fn rows_views(v: Seq<Vec<String>>) -> Seq<Seq<Seq<char>>> {
    v.map_values(|r: Vec<String>| string_views(r@))
}

fn strings_of(v: &Vec<Vec<char>>) -> (r: Vec<String>)
    ensures
        string_views(r@) == views(v@),
{
    let mut r: Vec<String> = Vec::new();
    let mut k: usize = 0;
    while k < v.len()
        invariant
            k <= v.len(),
            string_views(r@) == views(v@).take(k as int),
        decreases v.len() - k,
    {
        let s = string_of(&v[k]);
        let ghost before = r@;
        r.push(s);
        assert(string_views(r@) =~= string_views(before).push(s@));
        assert(views(v@).take(k + 1) =~= views(v@).take(k as int).push(v@[k as int]@));
        k = k + 1;
    }
    assert(views(v@).take(v.len() as int) =~= views(v@));
    r
}

/// The entries of the window among the stored file names, in their order.
pub fn history_entries(names: &Vec<String>, start: i32, end: i32) -> (r: Vec<Vec<String>>)
    ensures
        rows_views(r@) == listed(string_views(names@), start as int, end as int),
{
    let ghost ns = string_views(names@);
    let ghost all = listed(ns, start as int, end as int);
    let sep = chars_of("|||");
    proof {
        reveal_strlit("|||");
    }
    let mut rows: Vec<Vec<String>> = Vec::new();
    let mut cur: usize = 0;
    let mut i: usize = 0;
    let mut stop = false;
    while i < names.len() && !stop
        invariant
            ns == string_views(names@),
            all == listed(ns, start as int, end as int),
            sep@ == "|||"@,
            sep@.len() == 3,
            0 <= cur <= i <= names.len(),
            stop ==> rows_views(rows@) == all,
            !stop ==> rows_views(rows@) + listed_from(ns, i as int, cur as int, start as int, end as int)
                == all,
        decreases names.len() - i,
    {
        let f = split_chars(&chars_of(names[i].as_str()), &sep);
        assert(ns[i as int] == names@[i as int]@);
        let ghost before = rows@;
        let counted = start < 0 || cur >= start as usize;
        if counted && f.len() < 4 {
            i = i + 1;
        } else {
            if counted {
                let mut first4: Vec<Vec<char>> = Vec::new();
                first4.push(f[0].clone());
                first4.push(f[1].clone());
                first4.push(f[2].clone());
                first4.push(f[3].clone());
                assert(views(first4@) =~= views(f@).take(4));
                let row = strings_of(&first4);
                rows.push(row);
                assert(rows_views(rows@) =~= rows_views(before).push(string_views(row@)));
            }
            cur = cur + 1;
            if end < 0 || cur > end as usize {
                stop = true;
            }
            i = i + 1;
        }
    }
    rows
}

/// The range of milliseconds since the Unix epoch whose dates fall in the
/// years 0 to 9999, which RFC 2822 can write.
pub open spec fn rfc2822_writable(ms: int) -> bool {
    -62167219200000 <= ms < 253402300800000
}

/// The RFC 2822 date (in UTC) of a point `ms` milliseconds after the Unix
/// epoch, as `chrono` writes it.
pub uninterp spec fn rfc2822_of_millis(ms: int) -> Seq<char>;

/// `chrono::Utc.timestamp_millis_opt(ms).unwrap().to_rfc2822()` (the body
/// of the `timestamp_millis` that the console calls): the date written as
/// RFC 2822 says; both calls panic outside the years 0 to 9999, which the
/// `requires` leaves out.
#[verifier::external_body]
fn utc_rfc2822(ms: i64) -> (r: String)
    requires
        rfc2822_writable(ms as int),
    ensures
        r@ == rfc2822_of_millis(ms as int),
{
    chrono::Utc.timestamp_millis_opt(ms).unwrap().to_rfc2822()
}

/// The row the history table shows for an entry: id, method and host, and
/// the date of its milliseconds field. `None` where that field is not a
/// number or its date is not writable (the console stops there).
pub open spec fn row_of(e: Seq<Seq<char>>) -> Option<Seq<Seq<char>>> {
    if e.len() >= 4 {
        match parse_i64(e[3]) {
            Some(ms) => if rfc2822_writable(ms as int) {
                Some(seq![e[0], e[1], e[2], rfc2822_of_millis(ms as int)])
            } else {
                None
            },
            None => None,
        }
    } else {
        None
    }
}

/// The row of the history table for an entry.
pub fn history_row(entry: &Vec<String>) -> (r: Option<Vec<String>>)
    ensures
        r is Some <==> row_of(string_views(entry@)) is Some,
        r matches Some(v) ==> row_of(string_views(entry@)) == Some(string_views(v@)),
{
    if entry.len() < 4 {
        return None;
    }
    let ghost e = string_views(entry@);
    assert(e[3] == entry@[3]@);
    match std_parse_i64(entry[3].as_str()) {
        Some(ms) => {
            if -62167219200000 <= ms && ms < 253402300800000 {
                let mut row: Vec<String> = Vec::new();
                row.push(entry[0].clone());
                row.push(entry[1].clone());
                row.push(entry[2].clone());
                row.push(utc_rfc2822(ms));
                assert(string_views(row@) =~= seq![e[0], e[1], e[2], rfc2822_of_millis(ms as int)]);
                Some(row)
            } else {
                None
            }
        },
        None => None,
    }
}

/// Every entry of the window has a milliseconds field that gives a date
/// (elsewhere the console stops).
pub open spec fn rows_writable(names: Seq<Seq<char>>, start: int, end: int) -> bool {
    let es = listed(names, start, end);
    forall|i: int| 0 <= i < es.len() ==> (#[trigger] row_of(es[i])) is Some
}

/// Whether every entry of the window has a milliseconds field that gives a
/// date.
pub fn history_rows_ok(names: &Vec<String>, start: i32, end: i32) -> (r: bool)
    ensures
        r == rows_writable(string_views(names@), start as int, end as int),
{
    let entries = history_entries(names, start, end);
    let ghost es = listed(string_views(names@), start as int, end as int);
    let mut k: usize = 0;
    assert(es.len() == entries@.len());
    while k < entries.len()
        invariant
            k <= entries.len(),
            rows_views(entries@) == es,
            es == listed(string_views(names@), start as int, end as int),
            es.len() == entries@.len(),
            forall|i: int| 0 <= i < k ==> (#[trigger] row_of(es[i])) is Some,
        decreases entries.len() - k,
    {
        assert(es[k as int] == string_views(entries@[k as int]@));
        if history_row(&entries[k]).is_none() {
            assert(row_of(es[k as int]) is None);
            return false;
        }
        k = k + 1;
    }
    true
}

/// The rows of the history table for the window: one per entry, with the
/// date of its milliseconds field.
pub fn history_rows(names: &Vec<String>, start: i32, end: i32) -> (r: Vec<Vec<String>>)
    requires
        rows_writable(string_views(names@), start as int, end as int),
    ensures
        ({
            let es = listed(string_views(names@), start as int, end as int);
            &&& r@.len() == es.len()
            &&& forall|i: int|
                0 <= i < es.len() ==> row_of(es[i]) == Some(#[trigger] string_views(r@[i]@))
        }),
{
    let entries = history_entries(names, start, end);
    let ghost es = listed(string_views(names@), start as int, end as int);
    let mut rows: Vec<Vec<String>> = Vec::new();
    let mut k: usize = 0;
    assert(es.len() == entries@.len());
    while k < entries.len()
        invariant
            k <= entries.len(),
            rows_views(entries@) == es,
            es == listed(string_views(names@), start as int, end as int),
            rows_writable(string_views(names@), start as int, end as int),
            es.len() == entries@.len(),
            rows@.len() == k,
            forall|i: int| 0 <= i < k ==> row_of(es[i]) == Some(#[trigger] string_views(rows@[i]@)),
        decreases entries.len() - k,
    {
        assert(es[k as int] == string_views(entries@[k as int]@));
        assert(row_of(es[k as int]) is Some);
        match history_row(&entries[k]) {
            Some(row) => {
                rows.push(row);
            },
            None => {
                assert(false);
            },
        }
        k = k + 1;
    }
    rows
}

} // verus!
