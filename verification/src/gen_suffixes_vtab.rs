//! The table of all suffixes of a name.
//!
//! A name is looked up by any part of it through its suffixes: a text occurs in a
//! name exactly if it starts one of the name's suffixes.

use vstd::prelude::*;
use vstd::string::*;
use vstd::utf8::{
    decode_utf8, encode_utf8, encode_utf8_decode_utf8, encode_utf8_valid_utf8, valid_utf8,
};

use crate::text::{decode, joined};
use crate::util;

verus! {

/// The column with a suffix.
pub const COLUMN_SUFFIX: i32 = 0;

/// The hidden column with the name whose suffixes are listed.
pub const COLUMN_STRING: i32 = 1;

/// How the table is declared.
pub const DECLARATION: &'static str = "CREATE TABLE x(suffix, string hidden);";

/// The suffixes of a text, the longest first; the empty one is not among them.
pub open spec fn suffixes(text: Seq<char>) -> Seq<Seq<char>> {
    Seq::new(text.len(), |i: int| text.skip(i))
}

/// The text whose suffixes are listed for a name. There is none where the name is not
/// valid UTF-8, for it makes no sense to look for such names.
pub open spec fn text_of(name: Seq<u8>) -> Seq<char> {
    if valid_utf8(name) {
        decode_utf8(name)
    } else {
        Seq::empty()
    }
}

/// A condition that a statement puts on a column.
#[derive(Debug, Clone, Copy)]
pub struct Constraint {
    /// The column.
    pub column: i32,
    /// Whether the column must equal a given value.
    pub equals: bool,
    /// Whether the value is known when the table is read.
    pub usable: bool,
}

/// The table.
pub struct SuffixesVtab;

/// Whether a constraint gives the name whose suffixes are wanted.
pub open spec fn gives_name(c: Constraint) -> bool {
    c.column == COLUMN_STRING && c.equals && c.usable
}

impl SuffixesVtab {
    /// The first constraint that gives the name. Without one the table cannot be
    /// read.
    pub fn best_index(&self, constraints: &[Constraint]) -> (r: Option<usize>)
        ensures
            match r {
                Some(i) => {
                    &&& i < constraints@.len()
                    &&& gives_name(constraints@[i as int])
                    &&& forall|j: int| 0 <= j < i ==> !gives_name(#[trigger] constraints@[j])
                },
                None => forall|j: int|
                    0 <= j < constraints@.len() ==> !gives_name(#[trigger] constraints@[j]),
            },
    {
        let mut i: usize = 0;
        while i < constraints.len()
            invariant
                i <= constraints@.len(),
                forall|j: int| 0 <= j < i ==> !gives_name(#[trigger] constraints@[j]),
            decreases constraints@.len() - i,
        {
            let c = &constraints[i];
            if c.column == COLUMN_STRING && c.equals && c.usable {
                return Some(i);
            }
            i += 1;
        }
        None
    }

    /// A cursor with no rows.
    pub fn open(&self) -> (r: SuffixesVtabCursor)
        ensures
            r@ == (Rows { name: Seq::empty(), text: Seq::empty(), index: 0 }),
    {
        SuffixesVtabCursor { osstring: Vec::new(), string: String::new(), chars: 0, index: 0 }
    }
}

/// A place in the list of the suffixes of a name.
pub struct SuffixesVtabCursor {
    osstring: Vec<u8>,
    string: String,
    chars: usize,
    index: usize,
}

/// The meaning of a [`SuffixesVtabCursor`].
pub struct Rows {
    /// The name.
    pub name: Seq<u8>,
    /// The text whose suffixes are listed.
    pub text: Seq<char>,
    /// How many suffixes have been passed.
    pub index: nat,
}

/// The value of a column.
pub enum Column<'a> {
    /// The name.
    Blob(&'a [u8]),
    /// A suffix.
    Text(&'a str),
}

impl Rows {
    /// Whether all suffixes have been passed.
    pub open spec fn at_end(self) -> bool {
        self.index == suffixes(self.text).len()
    }
}

impl View for SuffixesVtabCursor {
    type V = Rows;

    closed spec fn view(&self) -> Rows {
        Rows { name: self.osstring@, text: self.string@, index: self.index as nat }
    }
}

impl SuffixesVtabCursor {
    #[verifier::type_invariant]
    spec fn inv(self) -> bool {
        &&& self.chars == self.string@.len()
        &&& self.index <= self.chars
    }

    /// Starts with the suffixes of a name.
    pub fn filter(&mut self, name: &[u8])
        ensures
            final(self)@ == (Rows { name: name@, text: text_of(name@), index: 0 }),
    {
        let text = match decode(name) {
            Some(text) => text,
            None => String::new(),
        };
        self.rewind(name, text);
    }

    /// Starts with the suffixes of a name that reads as `text`.
    pub fn rewind(&mut self, name: &[u8], text: String)
        ensures
            final(self)@ == (Rows { name: name@, text: text@, index: 0 }),
    {
        let chars: usize = text.as_str().unicode_len();
        *self = SuffixesVtabCursor {
            osstring: util::copy_bytes(name),
            string: text,
            chars,
            index: 0,
        };
    }

    /// Passes to the next suffix.
    pub fn next(&mut self)
        requires
            !old(self)@.at_end(),
        ensures
            final(self)@ == (Rows { index: old(self)@.index + 1, ..old(self)@ }),
    {
        proof {
            use_type_invariant(&*self);
        }
        self.index = self.index + 1;
    }

    /// Tells whether all suffixes have been passed.
    pub fn eof(&self) -> (r: bool)
        ensures
            r == self@.at_end(),
    {
        proof {
            use_type_invariant(self);
        }
        self.index == self.chars
    }

    /// The value of a column in the current row.
    pub fn column(&self, i: i32) -> (r: Column<'_>)
        requires
            i == COLUMN_STRING || !self@.at_end(),
        ensures
            match r {
                Column::Blob(name) => i == COLUMN_STRING && name@ == self@.name,
                Column::Text(suffix) => {
                    &&& i != COLUMN_STRING
                    &&& suffix@ == suffixes(self@.text)[self@.index as int]
                },
            },
    {
        proof {
            use_type_invariant(self);
        }
        if i == COLUMN_STRING {
            Column::Blob(self.osstring.as_slice())
        } else {
            let suffix = self.string.as_str().substring_char(self.index, self.chars);
            assert(suffix@ =~= suffixes(self@.text)[self@.index as int]);
            Column::Text(suffix)
        }
    }

    /// The number of the current row.
    pub fn rowid(&self) -> (r: i64)
        ensures
            r == (self@.index as usize) as i64,
    {
        self.index as i64
    }
}

/// The suffixes that are listed are all texts that the text ends with, but for the empty
/// one, the longest first, and the list is at its end once as many have been passed as the
/// text has characters.
pub proof fn law_suffixes_listed(text: Seq<char>, suffix: Seq<char>, name: Seq<u8>, index: nat)
    ensures
        suffixes(text).contains(suffix) <==> suffix.len() > 0 && exists|front: Seq<char>|
            #[trigger] (front + suffix) == text,
        forall|i: int|
            0 <= i < suffixes(text).len() ==> (#[trigger] suffixes(text)[i]).len() == text.len() - i,
        (Rows { name, text, index }).at_end() <==> index == text.len(),
{
    if suffixes(text).contains(suffix) {
        let i = choose|i: int| 0 <= i < suffixes(text).len() && suffixes(text)[i] == suffix;
        assert(text.take(i) + suffix =~= text);
    }
    if suffix.len() > 0 && exists|front: Seq<char>| #[trigger] (front + suffix) == text {
        let front = choose|front: Seq<char>| #[trigger] (front + suffix) == text;
        assert(text.skip(front.len() as int) =~= suffix);
        assert(suffixes(text)[front.len() as int] == suffix);
    }
}

/// Suffixes are those of the text that the bytes of a name encode; a name that encodes no
/// text has none.
pub proof fn law_suffixes_of_text(name: Seq<u8>, text: Seq<char>)
    ensures
        name == encode_utf8(text) ==> text_of(name) == text,
        !valid_utf8(name) ==> suffixes(text_of(name)).len() == 0,
{
    if name == encode_utf8(text) {
        encode_utf8_valid_utf8(text);
        encode_utf8_decode_utf8(text);
    }
}

/// The declaration of the table is that of its two columns in the order of their numbers,
/// and the name is given by just the constraints that put the hidden one equal to a value
/// that is known.
pub proof fn law_declaration(c: Constraint)
    ensures
        ({
            let columns = seq!["suffix"@, "string hidden"@];
            &&& DECLARATION@ == "CREATE TABLE x("@ + joined(columns, ", "@) + ");"@
            &&& columns[COLUMN_SUFFIX as int] == "suffix"@
            &&& gives_name(c) <==> {
                &&& 0 <= c.column < columns.len()
                &&& columns[c.column as int] == "string hidden"@
                &&& c.equals
                &&& c.usable
            }
        }),
{
    reveal_strlit("CREATE TABLE x(suffix, string hidden);");
    reveal_strlit("CREATE TABLE x(");
    reveal_strlit("suffix");
    reveal_strlit("string hidden");
    reveal_strlit(", ");
    reveal_strlit(");");
    reveal_with_fuel(joined, 3);
    let columns = seq!["suffix"@, "string hidden"@];
    assert(columns.drop_last() =~= seq!["suffix"@]);
    assert(DECLARATION@ =~= "CREATE TABLE x("@ + joined(columns, ", "@) + ");"@);
    assert("suffix"@.len() != "string hidden"@.len());
}

} // verus!
