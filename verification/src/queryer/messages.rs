//! What messages ask for, and how they are answered.

use vstd::prelude::*;
use vstd::string::*;

use crate::db::query::params;
use crate::db::select::{is_statement_for, law_query_statement, Select};
use crate::db::{error_text, Error, Failure};
use crate::queryer::{
    begin_line, end_line, error_line, item_line, wanted, AnswerAct, Answering, Stage,
};
use crate::text::{index_of, joined, law_split_parts, lemma_index_of, number_of, utf8_lossy};

verus! {

/// A message that does not begin with the word for a number of paths is a query for all
/// paths.
pub proof fn law_plain_message(msg: Seq<char>)
    requires
        msg.len() < 6 || msg.take(6) != "COUNT "@,
    ensures
        wanted(msg) == Some((usize::MAX, msg)),
{
    reveal_strlit("COUNT ");
}

/// In a message that begins with the word for a number of paths, the number is what comes
/// before the next space, and the query is all that comes after it. Without a space, and
/// with anything else before it, the message is not understood.
pub proof fn law_counted_message(word: Seq<char>, query: Seq<char>)
    requires
        !word.contains(' '),
    ensures
        wanted("COUNT "@ + word) is None,
        wanted("COUNT "@ + word + seq![' '] + query) == match number_of(word) {
            Some(n) => Some((n, query)),
            None => None,
        },
{
    reveal_strlit("COUNT ");
    let short = "COUNT "@ + word;
    let msg = "COUNT "@ + word + seq![' '] + query;
    assert(short.take(6) =~= "COUNT "@);
    assert(short.skip(6) =~= word);
    assert(msg.take(6) =~= "COUNT "@);
    let rest = msg.skip(6);
    assert(rest =~= word + seq![' '] + query);
    lemma_index_of(word, ' ', 0);
    let k = index_of(word, ' ', 0);
    if k < word.len() {
        assert(word.contains(word[k]));
    }
    lemma_index_of(rest, ' ', 0);
    let i = index_of(rest, ' ', 0);
    assert(rest[word.len() as int] == ' ');
    assert(i == word.len()) by {
        if i < word.len() {
            assert(rest[i] == word[i]);
            assert(word.contains(word[i]));
        }
    }
    assert(rest.take(i) =~= word);
    assert(rest.skip(i + 1) =~= query);
}

/// Once the first line of an answer is written, the statement for the segments of the query
/// is run: those texts without separators that give the query when they are joined with
/// separators. The text and the values of the statement are those for just these segments.
pub proof fn law_query_asked(
    msg: Seq<char>,
    count: usize,
    query: Seq<char>,
    segs: Seq<Seq<char>>,
)
    requires
        wanted(msg) == Some((count, query)),
        segs.len() > 0,
        forall|i: int| 0 <= i < segs.len() ==> !(#[trigger] segs[i]).contains('/'),
        joined(segs, seq!['/']) == query,
    ensures
        ({
            let asked = Answering { msg, stage: Stage::Begin }.printed();
            exists|stmt: Select| #[trigger]
                is_statement_for(stmt, segs) && asked.action() == AnswerAct::Query(
                    stmt.text(),
                    params(segs),
                )
        }),
{
    law_split_parts(query, '/', segs);
    law_query_statement(segs);
    let stmt = choose|stmt: Select| #[trigger] is_statement_for(stmt, segs);
    assert(is_statement_for(stmt, segs));
}

/// The lines of an answer are told apart by their first words, and what they are about can
/// be read off them.
pub proof fn law_lines(query: Seq<char>, path: Seq<u8>, error: Error)
    ensures
        begin_line(query).take(6) == "BEGIN "@ && begin_line(query).skip(6) == query,
        end_line(query).take(4) == "END "@ && end_line(query).skip(4) == query,
        item_line(path).take(5) == "ITEM "@ && item_line(path).skip(5) == utf8_lossy(path),
        error_line(error).take(6) == "ERROR "@ && error_line(error).skip(6) == error_text(error),
{
    reveal_strlit("BEGIN ");
    reveal_strlit("END ");
    reveal_strlit("ITEM ");
    reveal_strlit("ERROR ");
    assert(begin_line(query).take(6) =~= "BEGIN "@);
    assert(begin_line(query).skip(6) =~= query);
    assert(end_line(query).take(4) =~= "END "@);
    assert(end_line(query).skip(4) =~= query);
    assert(item_line(path).take(5) =~= "ITEM "@);
    assert(item_line(path).skip(5) =~= utf8_lossy(path));
    assert(error_line(error).take(6) =~= "ERROR "@);
    assert(error_line(error).skip(6) =~= error_text(error));
}

/// A failure of the query, of the wish for another row or of a lookup ends the answer: an
/// error is written that tells the failure, unless the answer was interrupted, and then the
/// last line.
pub proof fn law_failures_told(a: Answering, failure: Failure)
    requires
        a.valid(),
    ensures
        ({
            let failed = match a.action() {
                AnswerAct::Query(_, _) => Some(a.queried(Err(failure))),
                AnswerAct::NextRow => Some(a.row(Err(failure))),
                AnswerAct::Lookup(_) => Some(a.entry(Err(failure))),
                _ => None,
            };
            failed matches Some(next) ==> {
                let last = if failure.kind is Interrupted {
                    next
                } else {
                    next.printed()
                };
                &&& failure.kind !is Interrupted ==> next.action() == AnswerAct::Print(
                    error_line(Error::SQLite(failure)),
                )
                &&& last.action() == AnswerAct::Print(end_line(a.msg))
                &&& last.printed().action() == AnswerAct::Done
            }
        }),
{
}

/// An error of the database tells what the database says, and the others are told apart.
pub proof fn law_errors_told(failure: Failure, text: String)
    ensures
        error_text(Error::SQLite(failure)).skip(16) == failure.text@,
        error_text(Error::Migration(text)).skip(17) == text@,
        error_text(Error::ManyFiles) != error_text(Error::NoFile),
        error_text(Error::ManyFiles) != error_text(Error::NameTaken),
        error_text(Error::ManyFiles) != error_text(Error::BadRoot),
        error_text(Error::NoFile) != error_text(Error::NameTaken),
        error_text(Error::NoFile) != error_text(Error::BadRoot),
        error_text(Error::NameTaken) != error_text(Error::BadRoot),
{
    reveal_strlit("Misc DB errror: ");
    reveal_strlit("Migration error: ");
    reveal_strlit("Multiple files matching the criteria already exist");
    reveal_strlit("No files matching the criteria exist");
    reveal_strlit("A file with the same parent and name already exists");
    reveal_strlit("Provided file is not root of file tree");
    assert(error_text(Error::SQLite(failure)).skip(16) =~= failure.text@);
    assert(error_text(Error::Migration(text)).skip(17) =~= text@);
    assert(error_text(Error::ManyFiles)[0] == 'M');
    assert(error_text(Error::NoFile)[0] == 'N');
    assert(error_text(Error::NameTaken)[0] == 'A');
    assert(error_text(Error::BadRoot)[0] == 'P');
}

} // verus!
