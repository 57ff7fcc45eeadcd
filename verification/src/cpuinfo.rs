//! The processor table: one block of `name : value` lines for each
//! processor, with an empty line between two blocks.

use crate::table::{fill, found_in, Table};
use crate::text::{chars_of, cut_once, first_line, lines, split_once, string_of, trim, trimmed};
use vstd::prelude::*;

verus! {

/// True when two line feeds stand side by side at position `at`.
pub open spec fn blank_at(s: Seq<char>, at: int) -> bool {
    0 <= at && at + 1 < s.len() && s[at] == '\n' && s[at + 1] == '\n'
}

/// The first position at or after `from` at which two line feeds stand side
/// by side, or the length of `s` where there is none.
pub open spec fn blank_line(s: Seq<char>, from: int) -> int
    decreases s.len() - from,
{
    if from < 0 || from + 1 >= s.len() {
        s.len() as int
    } else if blank_at(s, from) {
        from
    } else {
        blank_line(s, from + 1)
    }
}

/// What a line binds: the name before the first colon to the value after
/// it, each without the white space around it. A line without a colon binds
/// nothing.
pub open spec fn cpu_entry(line: Seq<char>) -> Option<(Seq<char>, Seq<char>)> {
    match split_once(line, ':') {
        Some((name, content)) => Some((trim(name), trim(content))),
        None => None,
    }
}

/// `cpu_entry`, as a value.
pub open spec fn cpu_entries() -> spec_fn(Seq<char>) -> Option<(Seq<char>, Seq<char>)> {
    |line: Seq<char>| cpu_entry(line)
}

/// The table that a block writes: its lines, read in order.
pub open spec fn cpu_of(block: Seq<char>) -> Map<Seq<char>, Seq<char>> {
    fill(Map::empty(), lines(block), cpu_entries())
}

/// The table of a block, or nothing where the block is empty.
pub open spec fn block_of(block: Seq<char>) -> Seq<Map<Seq<char>, Seq<char>>> {
    if block.len() == 0 {
        Seq::empty()
    } else {
        seq![cpu_of(block)]
    }
}

/// The tables that a text writes: one for each block that is not empty, in
/// order. A block ends where two line feeds stand side by side.
pub open spec fn cpus_of(text: Seq<char>) -> Seq<Map<Seq<char>, Seq<char>>>
    decreases text.len(),
{
    let at = blank_line(text, 0);
    if 0 <= at && at + 2 <= text.len() {
        block_of(text.subrange(0, at)) + cpus_of(text.subrange(at + 2, text.len() as int))
    } else {
        block_of(text)
    }
}

/// `blank_line` is characterised by what it skips and where it stops.
pub proof fn lemma_blank_line_is(s: Seq<char>, from: int, at: int)
    requires
        0 <= from <= at <= s.len(),
        forall|j: int| from <= j < at ==> !blank_at(s, j),
        at < s.len() ==> blank_at(s, at),
    ensures
        blank_line(s, from) == at,
    decreases at - from,
{
    if from < at && from + 1 < s.len() {
        lemma_blank_line_is(s, from + 1, at);
    }
}

/// The position of the first empty line in a text.
pub fn find_blank_line(text: &[char]) -> (at: usize)
    ensures
        at == blank_line(text@, 0),
        at <= text@.len(),
        at < text@.len() ==> at + 2 <= text@.len(),
{
    let len = text.len();
    let mut i: usize = 0;
    while i < len && !(i + 1 < len && text[i] == '\n' && text[i + 1] == '\n')
        invariant
            i <= len == text@.len(),
            forall|j: int| 0 <= j < i ==> !blank_at(text@, j),
        decreases len - i,
    {
        i += 1;
    }
    proof {
        lemma_blank_line_is(text@, 0, i as int);
    }
    i
}

/// What the system says of one processor, by name.
#[derive(Debug)]
pub struct Cpu(Table<String>);

impl View for Cpu {
    type V = Map<Seq<char>, Seq<char>>;

    closed spec fn view(&self) -> Map<Seq<char>, Seq<char>> {
        self.0@
    }
}

impl Cpu {
    /// Reads the lines of one block. A line that cannot be read is passed
    /// over.
    pub fn read(block: &[char]) -> (cpu: Self)
        ensures
            cpu@ == cpu_of(block@),
    {
        let mut rest: &[char] = block;
        let mut table: Table<String> = Table::new();
        while rest.len() > 0
            invariant
                fill(table@, lines(rest@), cpu_entries()) == cpu_of(block@),
            decreases rest@.len(),
        {
            let (line, after) = first_line(rest);
            assert((seq![line@] + lines(after@)).drop_first() =~= lines(after@));
            assert(cpu_entries()(line@) == cpu_entry(line@));
            match cut_once(line, ':') {
                Some((name, content)) => {
                    table = table.insert(string_of(trimmed(name)), string_of(trimmed(content)));
                },
                None => {},
            }
            rest = after;
        }
        Cpu(table)
    }

    /// The value that the block gives under a name.
    pub fn get(&self, key: &str) -> (value: Option<&str>)
        ensures
            found_in(self@, key@, value),
    {
        match self.0.get(key) {
            Some(value) => Some(value.as_str()),
            None => None,
        }
    }

    /// The name of the processor's model: `model name`.
    pub fn model_name(&self) -> (value: Option<&str>)
        ensures
            found_in(self@, "model name"@, value),
    {
        self.get("model name")
    }
}

/// The tables of each of the processors.
pub open spec fn tables(cpus: Seq<Cpu>) -> Seq<Map<Seq<char>, Seq<char>>> {
    Seq::new(cpus.len(), |i: int| cpus[i]@)
}

/// What the system says of its processors, one table for each.
#[derive(Debug)]
pub struct Cpuinfo(Vec<Cpu>);

impl View for Cpuinfo {
    type V = Seq<Map<Seq<char>, Seq<char>>>;

    closed spec fn view(&self) -> Seq<Map<Seq<char>, Seq<char>>> {
        tables(self.0@)
    }
}

impl Cpuinfo {
    /// Takes what reading the processor table gave. A failed read gives a
    /// table without processors.
    pub fn new(read: Result<String, std::io::Error>) -> (info: Self)
        ensures
            match read {
                Ok(text) => info@ == cpus_of(text@),
                Err(_) => info@ == Seq::<Map<Seq<char>, Seq<char>>>::empty(),
            },
    {
        match read {
            Ok(text) => Cpuinfo(Self::new_inner(text.as_str())),
            Err(_) => {
                let none: Vec<Cpu> = Vec::new();
                assert(tables(none@) =~= Seq::<Map<Seq<char>, Seq<char>>>::empty());
                Cpuinfo(none)
            },
        }
    }

    /// Takes what reading the processor table gave. A failed read is handed
    /// back as it is.
    pub fn try_new(read: Result<String, std::io::Error>) -> (r: Result<Self, std::io::Error>)
        ensures
            match read {
                Ok(text) => r matches Ok(info) && info@ == cpus_of(text@),
                Err(e) => r matches Err(same) && same == e,
            },
    {
        match read {
            Ok(text) => Ok(Cpuinfo(Self::new_inner(text.as_str()))),
            Err(e) => Err(e),
        }
    }

    /// Reads the table from its text, block by block. An empty block gives
    /// no processor.
    pub fn new_inner(text: &str) -> (cpus: Vec<Cpu>)
        ensures
            tables(cpus@) == cpus_of(text@),
    {
        let chars = chars_of(text);
        let mut rest: &[char] = chars.as_slice();
        let mut cpus: Vec<Cpu> = Vec::new();
        assert(tables(cpus@) =~= Seq::<Map<Seq<char>, Seq<char>>>::empty());
        loop
            invariant
                cpus_of(text@) == tables(cpus@) + cpus_of(rest@),
            decreases rest@.len(),
        {
            let len = rest.len();
            let at = find_blank_line(rest);
            let block = if at < len {
                &rest[0..at]
            } else {
                rest
            };
            let ghost before = tables(cpus@);
            if block.len() > 0 {
                let cpu = Cpu::read(block);
                cpus.push(cpu);
                assert(tables(cpus@) =~= before + block_of(block@));
            }
            assert(tables(cpus@) =~= before + block_of(block@));
            if at >= len {
                return cpus;
            }
            rest = &rest[at + 2..len];
        }
    }

    /// The processors, in the order of the table.
    pub fn cpus(&self) -> (cpus: &[Cpu])
        ensures
            tables(cpus@) == self@,
    {
        self.0.as_slice()
    }
}

} // verus!
