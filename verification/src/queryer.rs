//! Answering queries, line by line.

pub mod found;
pub mod listing;
pub mod messages;

use vstd::prelude::*;
use vstd::string::*;

use crate::db::path::{get_path, looked_up, names_of, path_through, Climbing, GetPath, PathState};
use crate::db::query::{params, prepare_query, query_text};
use crate::db::{error_text, Error, Failure, FailureKind};
use crate::text::{
    between, decimal, decode_lossy, find_char, index_of, law_number_of_decimal, law_split_joined,
    lemma_decimal, lemma_index_of, number_of, parse_number, split, split_at, texts, trim_end,
    trimmed, utf8_lossy,
};

verus! {

/// How answers are written.
#[derive(Debug, Clone, Copy, PartialEq, Eq, Structural)]
pub enum Format {
    Paths,
}

/// How to answer queries.
#[derive(Debug, Clone, Copy, PartialEq, Eq, Structural)]
pub struct QueryArgs {
    pub format: Format,
}

/// The first line of an answer.
pub open spec fn begin_line(query: Seq<char>) -> Seq<char> {
    "BEGIN "@ + query
}

/// The last line of an answer.
pub open spec fn end_line(query: Seq<char>) -> Seq<char> {
    "END "@ + query
}

/// The line for a path.
pub open spec fn item_line(path: Seq<u8>) -> Seq<char> {
    "ITEM "@ + utf8_lossy(path)
}

/// The line for an error.
pub open spec fn error_line(error: Error) -> Seq<char> {
    "ERROR "@ + error_text(error)
}

/// A part after a word.
fn after(word: &str, part: &str) -> (r: String)
    ensures
        r@ == word@ + part@,
{
    proof {
        reveal_strlit("");
    }
    let r = between(word, part, "");
    assert(r@ =~= word@ + part@);
    r
}

impl Format {
    /// The first line of an answer.
    pub fn begin(&self, query: &str) -> (r: String)
        ensures
            r@ == begin_line(query@),
    {
        after("BEGIN ", query)
    }

    /// The last line of an answer.
    pub fn end(&self, query: &str) -> (r: String)
        ensures
            r@ == end_line(query@),
    {
        after("END ", query)
    }

    /// The line for a path.
    pub fn path(&self, path: &[u8]) -> (r: String)
        ensures
            r@ == item_line(path@),
    {
        after("ITEM ", decode_lossy(path).as_str())
    }

    /// The line for an error.
    pub fn error(&self, error: &Error) -> (r: String)
        ensures
            r@ == error_line(*error),
    {
        after("ERROR ", error.message().as_str())
    }
}

/// The message on a line of input.
pub fn read_message(line: &str) -> (r: String)
    ensures
        r@ == trimmed(line@, '\n'),
{
    String::from_str(trim_end(line, '\n'))
}

/// How many paths a message asks for, and the query. `COUNT` and a number come before the
/// query; without them all paths are wanted. `None` if what comes after `COUNT` is not
/// understood.
pub open spec fn wanted(msg: Seq<char>) -> Option<(usize, Seq<char>)> {
    let word = "COUNT "@;
    if msg.len() >= word.len() && msg.take(word.len() as int) == word {
        let rest = msg.skip(word.len() as int);
        let i = index_of(rest, ' ', 0);
        if i < rest.len() {
            match number_of(rest.take(i)) {
                Some(count) => Some((count, rest.skip(i + 1))),
                None => None,
            }
        } else {
            None
        }
    } else {
        Some((usize::MAX, msg))
    }
}

/// Tells whether a text starts with a word.
fn starts_with(text: &str, word: &str) -> (r: bool)
    ensures
        r == (text@.len() >= word@.len() && text@.take(word@.len() as int) == word@),
{
    let n: usize = word.unicode_len();
    if text.unicode_len() < n {
        return false;
    }
    let mut i: usize = 0;
    while i < n
        invariant
            n == word@.len(),
            n <= text@.len(),
            i <= n,
            text@.take(i as int) == word@.take(i as int),
        decreases n - i,
    {
        if text.get_char(i) != word.get_char(i) {
            assert(text@.take(n as int)[i as int] != word@[i as int]);
            return false;
        }
        i += 1;
        assert(text@.take(i as int) =~= text@.take(i - 1).push(text@[i - 1]));
        assert(word@.take(i as int) =~= word@.take(i - 1).push(word@[i - 1]));
    }
    assert(word@.take(n as int) =~= word@);
    true
}

/// Reads how many paths a message asks for, and the query.
pub fn parse_message<'a>(msg: &'a str) -> (r: Option<(usize, &'a str)>)
    ensures
        match r {
            Some((count, query)) => wanted(msg@) == Some((count, query@)),
            None => wanted(msg@) is None,
        },
{
    proof {
        reveal_strlit("COUNT ");
    }
    if !starts_with(msg, "COUNT ") {
        return Some((usize::MAX, msg));
    }
    let len: usize = msg.unicode_len();
    let rest = msg.substring_char(6, len);
    assert(rest@ =~= msg@.skip(6));
    let n: usize = rest.unicode_len();
    let i: usize = find_char(rest, ' ', 0);
    if i == n {
        return None;
    }
    let number = rest.substring_char(0, i);
    assert(number@ =~= rest@.take(i as int));
    match parse_number(number) {
        Some(count) => {
            let query = rest.substring_char(i + 1, n);
            assert(query@ =~= rest@.skip(i + 1));
            Some((count, query))
        },
        None => None,
    }
}

/// A row of the result of a query: the first file of the chain, and the names below it.
pub struct Row {
    pub id: i64,
    pub below: Vec<Vec<u8>>,
}

/// The meaning of a [`Row`].
pub struct Chain {
    pub id: i64,
    pub below: Seq<Seq<u8>>,
}

impl View for Row {
    type V = Chain;

    open spec fn view(&self) -> Chain {
        Chain { id: self.id, below: names_of(self.below@) }
    }
}

/// What came of the wish for another row.
pub open spec fn row_of(x: Result<Option<Row>, Failure>) -> Result<Option<Chain>, Failure> {
    match x {
        Ok(Some(row)) => Ok(Some(row@)),
        Ok(None) => Ok(None),
        Err(failure) => Err(failure),
    }
}

/// How far an answer has come. `count` is how many paths are wanted, and `cnt` is how many
/// have been written.
#[allow(inconsistent_fields)]
pub enum AnswerState {
    /// The first line is written.
    Begin,
    /// The query is run.
    Query { count: usize },
    /// The next row is wanted.
    Rows { count: usize, cnt: usize },
    /// The path of the row is looked for.
    Path { count: usize, cnt: usize, path: GetPath, below: Vec<Vec<u8>> },
    /// The path is written.
    Item { count: usize, cnt: usize, path: Vec<u8> },
    /// An error is written.
    Failed { error: Error },
    /// The last line is written.
    End,
    /// Nothing is left to do.
    Finished,
}

/// The meaning of an [`AnswerState`].
#[allow(inconsistent_fields)]
pub enum Stage {
    Begin,
    Query { count: usize },
    Rows { count: usize, cnt: usize },
    Path { count: usize, cnt: usize, path: Climbing, below: Seq<Seq<u8>> },
    Item { count: usize, cnt: usize, path: Seq<u8> },
    Failed { error: Error },
    End,
    Finished,
}

impl View for AnswerState {
    type V = Stage;

    open spec fn view(&self) -> Stage {
        match *self {
            AnswerState::Begin => Stage::Begin,
            AnswerState::Query { count } => Stage::Query { count },
            AnswerState::Rows { count, cnt } => Stage::Rows { count, cnt },
            AnswerState::Path { count, cnt, path, below } => Stage::Path {
                count,
                cnt,
                path: path@,
                below: names_of(below@),
            },
            AnswerState::Item { count, cnt, path } => Stage::Item { count, cnt, path: path@ },
            AnswerState::Failed { error } => Stage::Failed { error },
            AnswerState::End => Stage::End,
            AnswerState::Finished => Stage::Finished,
        }
    }
}

/// The answer to a message.
pub struct Answer {
    format: Format,
    msg: String,
    state: AnswerState,
}

/// The meaning of an [`Answer`].
pub struct Answering {
    pub msg: Seq<char>,
    pub stage: Stage,
}

impl View for Answer {
    type V = Answering;

    closed spec fn view(&self) -> Answering {
        Answering { msg: self.msg@, stage: self.state@ }
    }
}

/// What is to be done next.
pub enum AnswerAction {
    /// To write a line; then [`Answer::printed`].
    Print(String),
    /// To run a statement with text for its parameters; [`Answer::queried`] takes what
    /// came of it.
    Query(String, Vec<String>),
    /// To get the next row; [`Answer::row`] takes it.
    NextRow,
    /// To look up a row with [`crate::db::path::ENTRY_SQL`]; [`Answer::entry`] takes what came of
    /// it.
    Lookup(i64),
    /// Nothing.
    Done,
}

/// The meaning of an [`AnswerAction`].
pub enum AnswerAct {
    Print(Seq<char>),
    Query(Seq<char>, Seq<Seq<char>>),
    NextRow,
    Lookup(i64),
    Done,
}

impl View for AnswerAction {
    type V = AnswerAct;

    open spec fn view(&self) -> AnswerAct {
        match *self {
            AnswerAction::Print(line) => AnswerAct::Print(line@),
            AnswerAction::Query(sql, parameters) => AnswerAct::Query(sql@, texts(parameters@)),
            AnswerAction::NextRow => AnswerAct::NextRow,
            AnswerAction::Lookup(id) => AnswerAct::Lookup(id),
            AnswerAction::Done => AnswerAct::Done,
        }
    }
}

/// What follows an error: it is written, unless the query was interrupted.
pub open spec fn failed(error: Error) -> Stage {
    if error matches Error::SQLite(failure) && failure.kind == FailureKind::Interrupted {
        Stage::End
    } else {
        Stage::Failed { error }
    }
}

/// The segments of a query.
pub open spec fn segments(query: Seq<char>) -> Seq<Seq<char>> {
    split(query, '/')
}

/// One more, starting over after the largest number.
pub open spec fn one_more(cnt: usize) -> usize {
    if cnt == usize::MAX {
        0
    } else {
        (cnt + 1) as usize
    }
}

impl Answering {
    /// The answer at another stage.
    pub open spec fn at(self, stage: Stage) -> Answering {
        Answering { stage, ..self }
    }

    /// The stage is one that the answer can be at.
    pub open spec fn valid(self) -> bool {
        match self.stage {
            Stage::Query { count } => wanted(self.msg) matches Some((n, _)) && n == count,
            Stage::Path { path, .. } => path.wanted() is Some,
            _ => true,
        }
    }

    /// What is to be done next.
    pub open spec fn action(self) -> AnswerAct {
        match self.stage {
            Stage::Begin => AnswerAct::Print(begin_line(self.msg)),
            Stage::Query { .. } => {
                let segs = segments((wanted(self.msg)->0).1);
                AnswerAct::Query(query_text(segs), params(segs))
            },
            Stage::Rows { .. } => AnswerAct::NextRow,
            Stage::Path { path, .. } => AnswerAct::Lookup(path.wanted()->0),
            Stage::Item { path, .. } => AnswerAct::Print(item_line(path)),
            Stage::Failed { error } => AnswerAct::Print(error_line(error)),
            Stage::End => AnswerAct::Print(end_line(self.msg)),
            Stage::Finished => AnswerAct::Done,
        }
    }

    /// Once a line was written. A message that is not understood has an answer without
    /// paths. With as many paths as are wanted, the answer ends.
    pub open spec fn printed(self) -> Answering {
        match self.stage {
            Stage::Begin => match wanted(self.msg) {
                Some((count, _)) => self.at(Stage::Query { count }),
                None => self.at(Stage::End),
            },
            Stage::Item { count, cnt, .. } => if one_more(cnt) == count {
                self.at(Stage::End)
            } else {
                self.at(Stage::Rows { count, cnt: one_more(cnt) })
            },
            Stage::Failed { .. } => self.at(Stage::End),
            Stage::End => self.at(Stage::Finished),
            _ => self,
        }
    }

    /// Once the query was run.
    pub open spec fn queried(self, x: Result<(), Failure>) -> Answering {
        match (self.stage, x) {
            (Stage::Query { count }, Ok(_)) => self.at(Stage::Rows { count, cnt: 0 }),
            (Stage::Query { .. }, Err(failure)) => self.at(failed(Error::SQLite(failure))),
            _ => self,
        }
    }

    /// Once there is another row, or none.
    pub open spec fn row(self, x: Result<Option<Chain>, Failure>) -> Answering {
        match (self.stage, x) {
            (Stage::Rows { count, cnt }, Ok(Some(row))) => self.at(
                Stage::Path { count, cnt, path: Climbing::new(row.id), below: row.below },
            ),
            (Stage::Rows { .. }, Ok(None)) => self.at(Stage::End),
            (Stage::Rows { .. }, Err(failure)) => self.at(failed(Error::SQLite(failure))),
            _ => self,
        }
    }

    /// Once a row was looked up.
    pub open spec fn entry(self, x: Result<(Seq<u8>, i64), Failure>) -> Answering {
        match self.stage {
            Stage::Path { count, cnt, path, below } => {
                let next = path.step(x);
                match next.state {
                    PathState::Find { .. } => self.at(
                        Stage::Path { count, cnt, path: next, below },
                    ),
                    PathState::Finished(Ok(_)) => self.at(
                        Stage::Item { count, cnt, path: path_through(next.names + below) },
                    ),
                    PathState::Finished(Err(e)) => self.at(failed(e)),
                }
            },
            _ => self,
        }
    }
}

/// What follows an error.
fn fail(error: Error) -> (r: AnswerState)
    ensures
        r@ == failed(error),
{
    if let Error::SQLite(failure) = &error {
        if failure.kind == FailureKind::Interrupted {
            return AnswerState::End;
        }
    }
    AnswerState::Failed { error }
}

/// Answers a message.
pub fn do_query(format: Format, msg: String) -> (r: Answer)
    ensures
        r@ == (Answering { msg: msg@, stage: Stage::Begin }),
{
    Answer { format, msg, state: AnswerState::Begin }
}

impl Answer {
    #[verifier::type_invariant]
    closed spec fn inv(self) -> bool {
        self@.valid()
    }

    /// What is to be done next.
    pub fn action(&self) -> (r: AnswerAction)
        ensures
            r@ == self@.action(),
    {
        proof {
            use_type_invariant(self);
        }
        match &self.state {
            AnswerState::Begin => AnswerAction::Print(self.format.begin(self.msg.as_str())),
            AnswerState::Query { .. } => match parse_message(self.msg.as_str()) {
                Some((_, query)) => {
                    let segs = split_at(query, '/');
                    proof {
                        law_split_joined(query@, '/');
                    }
                    match prepare_query(segs.as_slice()) {
                        Some((sql, parameters)) => AnswerAction::Query(sql, parameters),
                        None => AnswerAction::Done,
                    }
                },
                None => AnswerAction::Done,
            },
            AnswerState::Rows { .. } => AnswerAction::NextRow,
            AnswerState::Path { path, .. } => match path.wanted() {
                Some(id) => AnswerAction::Lookup(id),
                None => AnswerAction::Done,
            },
            AnswerState::Item { path, .. } => AnswerAction::Print(
                self.format.path(path.as_slice()),
            ),
            AnswerState::Failed { error } => AnswerAction::Print(self.format.error(error)),
            AnswerState::End => AnswerAction::Print(self.format.end(self.msg.as_str())),
            AnswerState::Finished => AnswerAction::Done,
        }
    }

    /// Goes on once a line was written.
    pub fn printed(self) -> (r: Self)
        ensures
            r@ == self@.printed(),
    {
        proof {
            use_type_invariant(&self);
        }
        let Answer { format, msg, state } = self;
        let next: AnswerState = match state {
            AnswerState::Begin => match parse_message(msg.as_str()) {
                Some((count, _)) => AnswerState::Query { count },
                None => AnswerState::End,
            },
            AnswerState::Item { count, cnt, .. } => {
                let cnt: usize = if cnt == usize::MAX {
                    0
                } else {
                    cnt + 1
                };
                if cnt == count {
                    AnswerState::End
                } else {
                    AnswerState::Rows { count, cnt }
                }
            },
            AnswerState::Failed { .. } => AnswerState::End,
            AnswerState::End => AnswerState::Finished,
            state => state,
        };
        Answer { format, msg, state: next }
    }

    /// Goes on once the query was run.
    pub fn queried(self, x: Result<(), Failure>) -> (r: Self)
        ensures
            r@ == self@.queried(x),
    {
        proof {
            use_type_invariant(&self);
        }
        let Answer { format, msg, state } = self;
        let next: AnswerState = match (state, x) {
            (AnswerState::Query { count }, Ok(_)) => AnswerState::Rows { count, cnt: 0 },
            (AnswerState::Query { .. }, Err(failure)) => fail(Error::SQLite(failure)),
            (state, _) => state,
        };
        Answer { format, msg, state: next }
    }

    /// Goes on once there is another row, or none.
    pub fn row(self, x: Result<Option<Row>, Failure>) -> (r: Self)
        ensures
            r@ == self@.row(row_of(x)),
    {
        proof {
            use_type_invariant(&self);
        }
        let Answer { format, msg, state } = self;
        let next: AnswerState = match (state, x) {
            (AnswerState::Rows { count, cnt }, Ok(Some(row))) => AnswerState::Path {
                count,
                cnt,
                path: get_path(row.id),
                below: row.below,
            },
            (AnswerState::Rows { .. }, Ok(None)) => AnswerState::End,
            (AnswerState::Rows { .. }, Err(failure)) => fail(Error::SQLite(failure)),
            (state, _) => state,
        };
        Answer { format, msg, state: next }
    }

    /// Goes on once a row was looked up.
    pub fn entry(self, x: Result<(Vec<u8>, i64), Failure>) -> (r: Self)
        ensures
            r@ == self@.entry(looked_up(x)),
    {
        proof {
            use_type_invariant(&self);
        }
        let Answer { format, msg, state } = self;
        let next: AnswerState = match state {
            AnswerState::Path { count, cnt, path, below } => {
                let mut path = path;
                path.step(x);
                if path.wanted().is_some() {
                    AnswerState::Path { count, cnt, path, below }
                } else {
                    match path.finish(below.as_slice()) {
                        Some(Ok(path)) => AnswerState::Item { count, cnt, path },
                        Some(Err(e)) => fail(e),
                        None => AnswerState::End,
                    }
                }
            },
            state => state,
        };
        Answer { format, msg, state: next }
    }
}

/// An answer, with the lines that have been written.
pub struct Transcript {
    pub answer: Answering,
    pub lines: Seq<Seq<char>>,
    /// How many of the lines are paths.
    pub items: nat,
}

/// The first `items` lines after the first line are paths.
pub open spec fn lists(lines: Seq<Seq<char>>, msg: Seq<char>, items: nat) -> bool {
    &&& lines.len() >= items + 1
    &&& lines[0] == begin_line(msg)
    &&& forall|i: int|
        1 <= i <= items ==> exists|path: Seq<u8>| #[trigger] lines[i] == item_line(path)
}

/// No more paths are listed than are wanted. None are where the message is not understood,
/// and any number may be where none or all are wanted.
pub open spec fn enough(msg: Seq<char>, items: nat) -> bool {
    match wanted(msg) {
        Some((count, _)) => count > 0 ==> items <= count,
        None => items == 0,
    }
}

/// The counters of an answer agree with the number of paths that have been written.
pub open spec fn counted(msg: Seq<char>, count: usize, cnt: usize, items: nat) -> bool {
    &&& wanted(msg) matches Some((n, _)) && n == count
    &&& count > 0 ==> cnt == items && items < count
}

impl Transcript {
    /// The answer to a message before the first line.
    pub open spec fn new(msg: Seq<char>) -> Transcript {
        Transcript {
            answer: Answering { msg, stage: Stage::Begin },
            lines: Seq::empty(),
            items: 0,
        }
    }

    /// What the lines are, as far as the answer has come.
    pub open spec fn so_far(self) -> bool {
        let msg = self.answer.msg;
        let n = self.items;
        match self.answer.stage {
            Stage::Begin => self.lines.len() == 0 && n == 0,
            Stage::Query { count } => {
                &&& lists(self.lines, msg, n)
                &&& n == 0
                &&& self.lines.len() == 1
                &&& wanted(msg) matches Some((c, _)) && c == count
            },
            Stage::Rows { count, cnt } => lists(self.lines, msg, n) && self.lines.len() == n + 1
                && counted(msg, count, cnt, n),
            Stage::Path { count, cnt, .. } => lists(self.lines, msg, n) && self.lines.len() == n
                + 1 && counted(msg, count, cnt, n),
            Stage::Item { count, cnt, .. } => lists(self.lines, msg, n) && self.lines.len() == n
                + 1 && counted(msg, count, cnt, n),
            Stage::Failed { .. } => lists(self.lines, msg, n) && self.lines.len() == n + 1
                && enough(msg, n),
            Stage::End => ends(self.lines, msg, n),
            Stage::Finished => self.lines.len() > 0 && self.lines.last() == end_line(msg) && ends(
                self.lines.drop_last(),
                msg,
                n,
            ),
        }
    }

    /// After a line was written.
    pub open spec fn printed(self) -> Transcript {
        match self.answer.action() {
            AnswerAct::Print(line) => Transcript {
                answer: self.answer.printed(),
                lines: self.lines.push(line),
                items: if self.answer.stage is Item {
                    self.items + 1
                } else {
                    self.items
                },
            },
            _ => self,
        }
    }

    /// After the query was run.
    pub open spec fn queried(self, x: Result<(), Failure>) -> Transcript {
        Transcript { answer: self.answer.queried(x), ..self }
    }

    /// After there was another row, or none.
    pub open spec fn row(self, x: Result<Option<Chain>, Failure>) -> Transcript {
        Transcript { answer: self.answer.row(x), ..self }
    }

    /// After a row was looked up.
    pub open spec fn entry(self, x: Result<(Seq<u8>, i64), Failure>) -> Transcript {
        Transcript { answer: self.answer.entry(x), ..self }
    }
}

/// The lines of an answer but for the last one: the first line, the paths, and at most
/// one error.
pub open spec fn ends(lines: Seq<Seq<char>>, msg: Seq<char>, items: nat) -> bool {
    &&& lists(lines, msg, items)
    &&& enough(msg, items)
    &&& lines.len() == items + 1 || (lines.len() == items + 2 && exists|e: Error| #[trigger]
        error_line(e) == lines.last())
}

/// Nothing is written of an answer that begins.
pub proof fn law_answer_begins(msg: Seq<char>)
    ensures
        Transcript::new(msg).so_far(),
{
}

/// Whatever the database does, an answer is made of a line that begins it, the paths, no
/// more than are wanted, at most one error, and a line that ends it; the first and the
/// last line repeat the message.
pub proof fn law_answer_goes_on(
    t: Transcript,
    query: Result<(), Failure>,
    row: Result<Option<Chain>, Failure>,
    entry: Result<(Seq<u8>, i64), Failure>,
)
    requires
        t.so_far(),
    ensures
        t.printed().so_far(),
        t.queried(query).so_far(),
        t.row(row).so_far(),
        t.entry(entry).so_far(),
{
    let next = t.printed();
    let msg = t.answer.msg;
    match t.answer.stage {
        Stage::Begin => {},
        Stage::Item { path, .. } => {
            lemma_more_lines(t.lines, msg, t.items, item_line(path));
        },
        Stage::Failed { error } => {
            lemma_more_lines(t.lines, msg, t.items, error_line(error));
            assert(error_line(error) == next.lines.last());
        },
        Stage::End => {
            assert(next.lines.drop_last() =~= t.lines);
        },
        _ => {},
    }
}

/// The paths are still listed after another line was written, and if it is a path, it is
/// listed, too.
proof fn lemma_more_lines(lines: Seq<Seq<char>>, msg: Seq<char>, items: nat, line: Seq<char>)
    requires
        lists(lines, msg, items),
    ensures
        lists(lines.push(line), msg, items),
        lines.len() == items + 1 && (exists|path: Seq<u8>| #[trigger] item_line(path) == line)
            ==> lists(lines.push(line), msg, items + 1),
{
    let more = lines.push(line);
    assert(more[0] == lines[0]);
    assert forall|i: int| 1 <= i <= items implies exists|path: Seq<u8>| #[trigger]
        more[i] == item_line(path) by {
        assert(more[i] == lines[i]);
    }
    if lines.len() == items + 1 && (exists|path: Seq<u8>| #[trigger] item_line(path) == line) {
        let path = choose|path: Seq<u8>| #[trigger] item_line(path) == line;
        assert(more[items as int + 1] == item_line(path));
    }
}

/// A message made of `COUNT`, a number and a query asks for that many paths.
pub proof fn law_count_message(n: nat, query: Seq<char>)
    requires
        n <= usize::MAX,
    ensures
        wanted("COUNT "@ + decimal(n) + " "@ + query) == Some((n as usize, query)),
{
    reveal_strlit("COUNT ");
    reveal_strlit(" ");
    let number = decimal(n);
    let msg = "COUNT "@ + number + " "@ + query;
    let rest = msg.skip(6);
    lemma_decimal(n);
    law_number_of_decimal(n);
    assert(msg.take(6) =~= "COUNT "@);
    assert(rest =~= number + " "@ + query);
    lemma_index_of(rest, ' ', 0);
    let i = index_of(rest, ' ', 0);
    assert(rest[number.len() as int] == ' ');
    assert(i == number.len()) by {
        if i < number.len() {
            assert(rest[i] == number[i]);
            assert(48 <= number[i] as u32);
        }
    }
    assert(rest.take(i) =~= number);
    assert(rest.skip(i + 1) =~= query);
}

} // verus!
