//! Names that are safe to splice into a statement and to use as a file stem.

use vstd::prelude::*;
use vstd::std_specs::cmp::PartialEqSpecImpl;
use vstd::std_specs::convert::FromSpecImpl;
use crate::clock::utc_formatted;

verus! {

/// Whether `c` is an ASCII letter.
pub open spec fn is_letter(c: char) -> bool {
    ('A' <= c && c <= 'Z') || ('a' <= c && c <= 'z')
}

/// Whether `c` may follow the first character of a name.
pub open spec fn is_name_char(c: char) -> bool {
    is_letter(c) || ('0' <= c && c <= '9') || c == '_'
}

/// The name grammar: a letter, then any number of letters, digits and underscores.
pub open spec fn is_sql_name(text: Seq<char>) -> bool {
    &&& text.len() > 0
    &&& is_letter(text[0])
    &&& forall|i: int| 1 <= i < text.len() ==> is_name_char(#[trigger] text[i])
}

/// A text that matches the grammar holds nothing that ends or parts a
/// statement or a path: no quote, no semicolon, no white space, no dot, no
/// separator.
pub proof fn lemma_name_holds_no_delimiter(text: Seq<char>, i: int)
    requires
        is_sql_name(text),
        0 <= i < text.len(),
    ensures
        text[i] != '\'',
        text[i] != '"',
        text[i] != ';',
        text[i] != ' ',
        text[i] != '\n',
        text[i] != '.',
        text[i] != '/',
        text[i] != '\\',
        text[i] != '-',
{
    if i == 0 {
        assert(is_letter(text[0]));
    } else {
        assert(is_name_char(text[i]));
    }
}

/// The text that `SqlName::new` turned down.
#[derive(Debug)]
pub struct NotAValidSqlName {
    pub name: String,
}

/// A text that matches the name grammar.
#[derive(Debug)]
pub struct SqlName(String);

impl View for SqlName {
    type V = Seq<char>;

    closed spec fn view(&self) -> Seq<char> {
        self.0@
    }
}

fn letter(c: char) -> (r: bool)
    ensures
        r == is_letter(c),
{
    ('A' <= c && c <= 'Z') || ('a' <= c && c <= 'z')
}

fn name_char(c: char) -> (r: bool)
    ensures
        r == is_name_char(c),
{
    letter(c) || ('0' <= c && c <= '9') || c == '_'
}

impl SqlName {
    #[verifier::type_invariant]
    spec fn well_formed(self) -> bool {
        is_sql_name(self.0@)
    }

    /// Accepts `name` if and only if it matches the grammar, and keeps its text unchanged.
    pub fn new(name: String) -> (r: Result<SqlName, NotAValidSqlName>)
        ensures
            is_sql_name(name@) <==> r is Ok,
            r matches Ok(n) ==> n@ == name@,
            r matches Err(e) ==> e.name@ == name@,
    {
        let mut empty = true;
        let mut good = true;
        for c in it: name.as_str().chars()
            invariant
                it.seq() == name@,
                empty <==> it.index() == 0,
                good <==> (forall|i: int|
                    0 <= i < it.index() ==> if i == 0 {
                        is_letter(name@[i])
                    } else {
                        is_name_char(name@[i])
                    }),
        {
            if empty {
                good = letter(c);
                empty = false;
            } else {
                good = good && name_char(c);
            }
        }
        if good && !empty {
            Ok(SqlName(name))
        } else {
            Err(NotAValidSqlName { name })
        }
    }

    /// A name derived from the current time in UTC, down to the nanosecond.
    ///
    /// The clock decides the text. It matches the grammar for every year of
    /// four digits; the text of any other moment is handed back as the error.
    pub fn now() -> (r: Result<SqlName, NotAValidSqlName>)
        ensures
            r matches Ok(n) ==> is_sql_name(n@),
            r matches Err(e) ==> !is_sql_name(e.name@),
    {
        SqlName::new(utc_formatted("at%Y_%m_%d_%H_%M_%S_%N"))
    }

    /// The text of the name.
    pub fn as_str(&self) -> (r: &str)
        ensures
            r@ == self@,
            is_sql_name(r@),
    {
        proof {
            use_type_invariant(self);
        }
        self.0.as_str()
    }
}

impl Clone for SqlName {
    fn clone(&self) -> (r: Self)
        ensures
            r == *self,
    {
        proof {
            use_type_invariant(self);
        }
        SqlName(self.0.clone())
    }
}

impl PartialEq for SqlName {
    fn eq(&self, other: &SqlName) -> (r: bool) {
        self.0 == other.0
    }
}

impl PartialEqSpecImpl for SqlName {
    open spec fn obeys_eq_spec() -> bool {
        true
    }

    open spec fn eq_spec(&self, other: &SqlName) -> bool {
        self@ == other@
    }
}

impl Eq for SqlName {

}

impl<'a> From<&'a SqlName> for SqlName {
    fn from(x: &'a SqlName) -> (r: SqlName) {
        x.clone()
    }
}

impl<'a> FromSpecImpl<&'a SqlName> for SqlName {
    open spec fn obeys_from_spec() -> bool {
        true
    }

    open spec fn from_spec(x: &'a SqlName) -> SqlName {
        *x
    }
}

} // verus!
