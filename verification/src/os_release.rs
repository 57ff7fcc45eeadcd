//! The release description: lines of `NAME=value`.

use crate::table::{fill, found_in, Table};
use crate::text::{
    chars_of, cut_once, first_line, is_space, is_whitespace, lemma_first_space_is, lines,
    split_once, string_of, strip, stripped, trim, trimmed, views, words,
};
use vstd::prelude::*;
use vstd::string::StrSliceExecFns;

verus! {

/// What a line binds: the name before the first `=`, without the white
/// space around it, to the value after it, without the double quotes at
/// either end. An empty line, a line that begins with `#` and a line without
/// `=` bind nothing.
pub open spec fn release_entry(line: Seq<char>) -> Option<(Seq<char>, Seq<char>)> {
    if line.len() == 0 || line[0] == '#' {
        None
    } else {
        match split_once(line, '=') {
            Some((name, content)) => Some((trim(name), strip(content, '"'))),
            None => None,
        }
    }
}

/// `release_entry`, as a value.
pub open spec fn release_entries() -> spec_fn(Seq<char>) -> Option<(Seq<char>, Seq<char>)> {
    |line: Seq<char>| release_entry(line)
}

/// The table that a text writes: its lines, read in order.
pub open spec fn release_of(text: Seq<char>) -> Map<Seq<char>, Seq<char>> {
    fill(Map::empty(), lines(text), release_entries())
}

/// Reads one line of the description.
pub fn read_entry(line: &[char]) -> (r: Option<(String, String)>)
    ensures
        match r {
            Some((name, value)) => release_entry(line@) == Some((name@, value@)),
            None => release_entry(line@) is None,
        },
{
    if line.len() == 0 || line[0] == '#' {
        return None;
    }
    match cut_once(line, '=') {
        Some((name, content)) => Some(
            (string_of(trimmed(name)), string_of(stripped(content, '"'))),
        ),
        None => None,
    }
}

/// The words of a text, as views into it.
pub fn split_words(text: &str) -> (found: Vec<&str>)
    ensures
        views(found@) == words(text@),
{
    let chars = chars_of(text);
    let len = chars.len();
    let mut found: Vec<&str> = Vec::new();
    let mut i: usize = 0;
    assert(chars@.subrange(0, len as int) =~= chars@);
    assert(views(found@) =~= Seq::<Seq<char>>::empty());
    while i < len
        invariant
            i <= len == chars@.len(),
            chars@ == text@,
            words(text@) == views(found@) + words(chars@.subrange(i as int, len as int)),
        decreases len - i,
    {
        let ghost rest = chars@.subrange(i as int, len as int);
        if is_whitespace(chars[i]) {
            assert(rest.drop_first() =~= chars@.subrange(i + 1, len as int));
            i += 1;
        } else {
            let mut end: usize = i + 1;
            while end < len && !is_whitespace(chars[end])
                invariant
                    i < end <= len == chars@.len(),
                    forall|j: int| i <= j < end ==> !is_space(#[trigger] chars@[j]),
                decreases len - end,
            {
                end += 1;
            }
            let word = text.substring_char(i, end);
            let ghost before = views(found@);
            found.push(word);
            proof {
                assert forall|j: int| 0 <= j < end - i implies !is_space(#[trigger] rest[j]) by {
                    assert(rest[j] == chars@[i + j]);
                }
                lemma_first_space_is(rest, 0, end - i);
                assert(rest.subrange(0, end - i) =~= chars@.subrange(i as int, end as int));
                assert(rest.subrange(end - i, rest.len() as int) =~= chars@.subrange(
                    end as int,
                    len as int,
                ));
                assert(views(found@) =~= before + seq![word@]);
            }
            i = end;
        }
    }
    found
}

/// What the system says of its release, by name.
#[derive(Debug)]
pub struct OsRelease(Table<String>);

impl View for OsRelease {
    type V = Map<Seq<char>, Seq<char>>;

    closed spec fn view(&self) -> Map<Seq<char>, Seq<char>> {
        self.0@
    }
}

impl OsRelease {
    /// Takes what reading the release description gave. A failed read gives
    /// a description without entries.
    pub fn new(read: Result<String, std::io::Error>) -> (release: Self)
        ensures
            match read {
                Ok(text) => release@ == release_of(text@),
                Err(_) => release@ == Map::<Seq<char>, Seq<char>>::empty(),
            },
    {
        match read {
            Ok(text) => OsRelease(Self::new_inner(text.as_str())),
            Err(_) => OsRelease(Table::new()),
        }
    }

    /// Takes what reading the release description gave. A failed read is
    /// handed back as it is.
    pub fn try_new(read: Result<String, std::io::Error>) -> (r: Result<Self, std::io::Error>)
        ensures
            match read {
                Ok(text) => r matches Ok(release) && release@ == release_of(text@),
                Err(e) => r matches Err(same) && same == e,
            },
    {
        match read {
            Ok(text) => Ok(OsRelease(Self::new_inner(text.as_str()))),
            Err(e) => Err(e),
        }
    }

    /// Reads the description from its text, line by line. A line that
    /// cannot be read is passed over.
    pub fn new_inner(text: &str) -> (table: Table<String>)
        ensures
            table@ == release_of(text@),
    {
        let chars = chars_of(text);
        let mut rest: &[char] = chars.as_slice();
        let mut table: Table<String> = Table::new();
        while rest.len() > 0
            invariant
                fill(table@, lines(rest@), release_entries()) == release_of(text@),
            decreases rest@.len(),
        {
            let (line, after) = first_line(rest);
            assert((seq![line@] + lines(after@)).drop_first() =~= lines(after@));
            assert(release_entries()(line@) == release_entry(line@));
            match read_entry(line) {
                Some((name, value)) => {
                    table = table.insert(name, value);
                },
                None => {},
            }
            rest = after;
        }
        table
    }

    /// The value that the description gives under a name.
    pub fn get(&self, key: &str) -> (value: Option<&str>)
        ensures
            found_in(self@, key@, value),
    {
        match self.0.get(key) {
            Some(value) => Some(value.as_str()),
            None => None,
        }
    }

    /// The systems that this one is like: the words of `ID_LIKE`.
    pub fn id_like(&self) -> (like: Option<Vec<&str>>)
        ensures
            match like {
                Some(ids) => self@.dom().contains("ID_LIKE"@) && views(ids@) == words(
                    self@["ID_LIKE"@],
                ),
                None => !self@.dom().contains("ID_LIKE"@),
            },
    {
        match self.get("ID_LIKE") {
            Some(value) => Some(split_words(value)),
            None => None,
        }
    }

    /// The name of the system: `NAME`.
    pub fn name(&self) -> (value: Option<&str>)
        ensures
            found_in(self@, "NAME"@, value),
    {
        self.get("NAME")
    }

    /// The identifier of the system: `ID`.
    pub fn id(&self) -> (value: Option<&str>)
        ensures
            found_in(self@, "ID"@, value),
    {
        self.get("ID")
    }

    /// The name of the system as it is shown: `PRETTY_NAME`.
    pub fn pretty_name(&self) -> (value: Option<&str>)
        ensures
            found_in(self@, "PRETTY_NAME"@, value),
    {
        self.get("PRETTY_NAME")
    }

    /// The name of the system in the common platform enumeration:
    /// `CPE_NAME`.
    pub fn cpe_name(&self) -> (value: Option<&str>)
        ensures
            found_in(self@, "CPE_NAME"@, value),
    {
        self.get("CPE_NAME")
    }

    /// The variant of the system: `VARIANT`.
    pub fn variant(&self) -> (value: Option<&str>)
        ensures
            found_in(self@, "VARIANT"@, value),
    {
        self.get("VARIANT")
    }

    /// The identifier of the variant: `VARIANT_ID`.
    pub fn variant_id(&self) -> (value: Option<&str>)
        ensures
            found_in(self@, "VARIANT_ID"@, value),
    {
        self.get("VARIANT_ID")
    }

    /// The version of the system: `VERSION`.
    pub fn version(&self) -> (value: Option<&str>)
        ensures
            found_in(self@, "VERSION"@, value),
    {
        self.get("VERSION")
    }
}

} // verus!
