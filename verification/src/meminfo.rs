//! The memory table: lines of `Name:   amount kB`.

use crate::table::{fill, Table};
use crate::text::{
    chars_of, cut_once, first_line, lines, parse_unsigned, split_once, string_of, trim, trimmed,
    unsigned_of,
};
use vstd::prelude::*;

verus! {

/// The text without the unit `kB` at its end, however often it stands
/// there.
pub open spec fn without_unit(s: Seq<char>) -> Seq<char>
    decreases s.len(),
{
    if s.len() >= 2 && s[s.len() - 2] == 'k' && s[s.len() - 1] == 'B' {
        without_unit(s.subrange(0, s.len() - 2))
    } else {
        s
    }
}

/// What a line binds: the name before the first colon, without the white
/// space around it, to the amount after it, read without its unit and the
/// white space around it. A line without a colon, or whose amount is no
/// number that the machine word holds, binds nothing.
pub open spec fn meminfo_entry(line: Seq<char>) -> Option<(Seq<char>, usize)> {
    match split_once(line, ':') {
        Some((name, content)) => match unsigned_of(
            trim(without_unit(content)),
            usize::MAX as nat,
        ) {
            Some(amount) => Some((trim(name), amount as usize)),
            None => None,
        },
        None => None,
    }
}

/// `meminfo_entry`, as a value.
pub open spec fn meminfo_entries() -> spec_fn(Seq<char>) -> Option<(Seq<char>, usize)> {
    |line: Seq<char>| meminfo_entry(line)
}

/// The table that a text writes: its lines, read in order.
pub open spec fn meminfo_of(text: Seq<char>) -> Map<Seq<char>, usize> {
    fill(Map::empty(), lines(text), meminfo_entries())
}

/// The part of the text that is left when the unit at its end is taken
/// away.
pub fn unit_removed(s: &[char]) -> (r: &[char])
    ensures
        r@ == without_unit(s@),
{
    let mut to: usize = s.len();
    assert(s@.subrange(0, to as int) =~= s@);
    while to >= 2 && s[to - 2] == 'k' && s[to - 1] == 'B'
        invariant
            to <= s@.len(),
            without_unit(s@) == without_unit(s@.subrange(0, to as int)),
        decreases to,
    {
        assert(s@.subrange(0, to as int).subrange(0, to - 2) =~= s@.subrange(0, to - 2));
        to -= 2;
    }
    &s[0..to]
}

/// Reads one line of the table.
pub fn read_entry(line: &[char]) -> (r: Option<(String, usize)>)
    ensures
        match r {
            Some((name, amount)) => meminfo_entry(line@) == Some((name@, amount)),
            None => meminfo_entry(line@) is None,
        },
{
    match cut_once(line, ':') {
        Some((name, content)) => {
            match parse_unsigned(trimmed(unit_removed(content)), usize::MAX as u64) {
                Some(amount) => Some((string_of(trimmed(name)), amount as usize)),
                None => None,
            }
        },
        None => None,
    }
}

/// The amounts of memory that the system reports, in kilobytes, by name.
#[derive(Debug)]
pub struct Meminfo(Table<usize>);

impl View for Meminfo {
    type V = Map<Seq<char>, usize>;

    closed spec fn view(&self) -> Map<Seq<char>, usize> {
        self.0@
    }
}

impl Meminfo {
    /// Takes what reading the memory table gave. A failed read gives a table
    /// without entries.
    pub fn new(read: Result<String, std::io::Error>) -> (info: Self)
        ensures
            match read {
                Ok(text) => info@ == meminfo_of(text@),
                Err(_) => info@ == Map::<Seq<char>, usize>::empty(),
            },
    {
        match read {
            Ok(text) => Meminfo(Self::new_inner(text.as_str())),
            Err(_) => Meminfo(Table::new()),
        }
    }

    /// Takes what reading the memory table gave. A failed read is handed
    /// back as it is.
    pub fn try_new(read: Result<String, std::io::Error>) -> (r: Result<Self, std::io::Error>)
        ensures
            match read {
                Ok(text) => r matches Ok(info) && info@ == meminfo_of(text@),
                Err(e) => r matches Err(same) && same == e,
            },
    {
        match read {
            Ok(text) => Ok(Meminfo(Self::new_inner(text.as_str()))),
            Err(e) => Err(e),
        }
    }

    /// Reads the table from its text, line by line. A line that cannot be
    /// read is passed over.
    pub fn new_inner(text: &str) -> (table: Table<usize>)
        ensures
            table@ == meminfo_of(text@),
    {
        let chars = chars_of(text);
        let mut rest: &[char] = chars.as_slice();
        let mut table: Table<usize> = Table::new();
        while rest.len() > 0
            invariant
                fill(table@, lines(rest@), meminfo_entries()) == meminfo_of(text@),
            decreases rest@.len(),
        {
            let (line, after) = first_line(rest);
            let ghost before = table@;
            assert((seq![line@] + lines(after@)).drop_first() =~= lines(after@));
            assert(meminfo_entries()(line@) == meminfo_entry(line@));
            match read_entry(line) {
                Some((name, amount)) => {
                    table = table.insert(name, amount);
                },
                None => {},
            }
            rest = after;
        }
        table
    }

    /// The amount that the table gives under a name.
    pub fn get(&self, key: &str) -> (amount: Option<usize>)
        ensures
            amount == if self@.dom().contains(key@) {
                Some(self@[key@])
            } else {
                None
            },
    {
        match self.0.get(key) {
            Some(amount) => Some(*amount),
            None => None,
        }
    }

    /// The total amount of usable memory.
    pub fn mem_total(&self) -> (amount: Option<usize>)
        ensures
            amount == if self@.dom().contains("MemTotal"@) {
                Some(self@["MemTotal"@])
            } else {
                None
            },
    {
        self.get("MemTotal")
    }
}

} // verus!
