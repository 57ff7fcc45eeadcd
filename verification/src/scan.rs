//! Finding delimiters in sequences of bytes and of characters.

use vstd::prelude::*;

verus! {

/// The byte that ends the name, password and group-id fields.
pub const COLON: u8 = 0x3a;

/// The byte that ends a record.
pub const NEWLINE: u8 = 0x0a;

/// The byte that separates the members of a group.
pub const COMMA: u8 = 0x2c;

/// True when `b` does not occur in `s` at the positions `from..to`.
pub open spec fn absent<T>(s: Seq<T>, b: T, from: int, to: int) -> bool {
    forall|j: int| from <= j < to && 0 <= j < s.len() ==> s[j] != b
}

/// The first position at or after `from` at which `s` holds `b`, or the
/// length of `s` where there is none.
pub open spec fn find<T>(s: Seq<T>, b: T, from: int) -> int
    decreases s.len() - from,
{
    if from < 0 || from >= s.len() {
        s.len() as int
    } else if s[from] == b {
        from
    } else {
        find(s, b, from + 1)
    }
}

/// `find` is characterised by what it skips and where it stops.
pub proof fn lemma_find_is<T>(s: Seq<T>, b: T, from: int, at: int)
    requires
        0 <= from <= at <= s.len(),
        absent(s, b, from, at),
        at < s.len() ==> s[at] == b,
    ensures
        find(s, b, from) == at,
    decreases at - from,
{
    if from < at {
        lemma_find_is(s, b, from + 1, at);
    }
}

/// What `find` returns lies between `from` and the end, nothing before it
/// is the byte sought, and the byte sought stands there unless it is the end.
pub proof fn lemma_find_bounds<T>(s: Seq<T>, b: T, from: int)
    requires
        0 <= from <= s.len(),
    ensures
        from <= find(s, b, from) <= s.len(),
        absent(s, b, from, find(s, b, from)),
        find(s, b, from) < s.len() ==> s[find(s, b, from)] == b,
    decreases s.len() - from,
{
    if from < s.len() && s[from] != b {
        lemma_find_bounds(s, b, from + 1);
    }
}

/// The position of the first `b` in `data` at or after `from`.
pub fn find_byte(data: &[u8], b: u8, from: usize) -> (at: usize)
    requires
        from <= data@.len(),
    ensures
        at == find(data@, b, from as int),
        from <= at <= data@.len(),
        absent(data@, b, from as int, at as int),
        at < data@.len() ==> data@[at as int] == b,
{
    let mut i: usize = from;
    while i < data.len() && data[i] != b
        invariant
            from <= i <= data@.len(),
            absent(data@, b, from as int, i as int),
        decreases data@.len() - i,
    {
        i += 1;
    }
    proof {
        lemma_find_is(data@, b, from as int, i as int);
    }
    i
}

/// The position of the first `c` in `text` at or after `from`.
pub fn find_char(text: &[char], c: char, from: usize) -> (at: usize)
    requires
        from <= text@.len(),
    ensures
        at == find(text@, c, from as int),
        from <= at <= text@.len(),
        absent(text@, c, from as int, at as int),
        at < text@.len() ==> text@[at as int] == c,
{
    let mut i: usize = from;
    while i < text.len() && text[i] != c
        invariant
            from <= i <= text@.len(),
            absent(text@, c, from as int, i as int),
        decreases text@.len() - i,
    {
        i += 1;
    }
    proof {
        lemma_find_is(text@, c, from as int, i as int);
    }
    i
}

/// The pieces of `s` that lie between its separators, in order. There is
/// one more piece than there are separators, so there is always one.
pub open spec fn split<T>(s: Seq<T>, sep: T) -> Seq<Seq<T>>
    decreases s.len(),
{
    let at = find(s, sep, 0);
    if 0 <= at < s.len() {
        seq![s.subrange(0, at)] + split(s.subrange(at + 1, s.len() as int), sep)
    } else {
        seq![s]
    }
}

/// The first `n` pieces of `s`, where the last of them is all that is left
/// of `s`, separators included. There are fewer where `s` holds fewer than
/// `n - 1` separators.
pub open spec fn splitn<T>(s: Seq<T>, sep: T, n: nat) -> Seq<Seq<T>>
    decreases n,
{
    if n == 0 {
        Seq::empty()
    } else if n == 1 {
        seq![s]
    } else {
        let at = find(s, sep, 0);
        if 0 <= at < s.len() {
            seq![s.subrange(0, at)] + splitn(
                s.subrange(at + 1, s.len() as int),
                sep,
                (n - 1) as nat,
            )
        } else {
            seq![s]
        }
    }
}

/// The pieces written one after the other, with a separator between each
/// two.
pub open spec fn join<T>(parts: Seq<Seq<T>>, sep: T) -> Seq<T>
    decreases parts.len(),
{
    if parts.len() == 0 {
        Seq::empty()
    } else if parts.len() == 1 {
        parts[0]
    } else {
        parts[0] + seq![sep] + join(parts.drop_first(), sep)
    }
}

} // verus!
