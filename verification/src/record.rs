//! The layout of one record of the group database, and the scanner that
//! finds it.
//!
//! A record is `name:password:gid:members`, ended by a newline or by the end
//! of the input. The first three fields end at the first three colons of the
//! unread bytes, wherever those stand; only the member list ends at a newline.

use crate::scan::{absent, find, lemma_find_is, COLON, NEWLINE};
use vstd::prelude::*;

verus! {

/// Where the name ends: at the first colon.
pub open spec fn name_end(rest: Seq<u8>) -> int {
    find(rest, COLON, 0)
}

/// Where the password ends: at the second colon.
pub open spec fn password_end(rest: Seq<u8>) -> int {
    find(rest, COLON, name_end(rest) + 1)
}

/// Where the group id ends: at the third colon.
pub open spec fn gid_end(rest: Seq<u8>) -> int {
    find(rest, COLON, password_end(rest) + 1)
}

/// Where the member list ends: at the first newline after the third colon,
/// or at the end of the input where no newline follows.
pub open spec fn userlist_end(rest: Seq<u8>) -> int {
    find(rest, NEWLINE, gid_end(rest) + 1)
}

/// True when the unread bytes hold the three colons of a record.
pub open spec fn is_complete(rest: Seq<u8>) -> bool {
    gid_end(rest) < rest.len()
}

/// The bytes of the name field.
pub open spec fn name_bytes(rest: Seq<u8>) -> Seq<u8> {
    rest.subrange(0, name_end(rest))
}

/// The bytes of the password field.
pub open spec fn password_bytes(rest: Seq<u8>) -> Seq<u8> {
    rest.subrange(name_end(rest) + 1, password_end(rest))
}

/// The bytes of the group-id field.
pub open spec fn gid_bytes(rest: Seq<u8>) -> Seq<u8> {
    rest.subrange(password_end(rest) + 1, gid_end(rest))
}

/// The bytes of the member list, without the newline that ends it.
pub open spec fn userlist_bytes(rest: Seq<u8>) -> Seq<u8> {
    rest.subrange(gid_end(rest) + 1, userlist_end(rest))
}

/// How many bytes a complete record takes up, its newline included.
pub open spec fn record_len(rest: Seq<u8>) -> int {
    if userlist_end(rest) < rest.len() {
        userlist_end(rest) + 1
    } else {
        rest.len() as int
    }
}

/// True for the ASCII digits.
pub open spec fn is_digit(b: u8) -> bool {
    0x30 <= b <= 0x39
}

/// True when every byte of `s` is an ASCII digit.
pub open spec fn all_digits(s: Seq<u8>) -> bool {
    forall|i: int| 0 <= i < s.len() ==> is_digit(#[trigger] s[i])
}

/// The number that a run of ASCII digits writes in base ten.
pub open spec fn digits_value(s: Seq<u8>) -> nat
    decreases s.len(),
{
    if s.len() == 0 {
        0
    } else {
        digits_value(s.drop_last()) * 10 + (s.last() - 0x30) as nat
    }
}

/// The group id that a field writes: the field must be one or more ASCII
/// digits, nothing else, and their value must fit in 32 bits.
pub open spec fn gid_of(field: Seq<u8>) -> Option<u32> {
    if field.len() > 0 && all_digits(field) && digits_value(field) <= u32::MAX {
        Some(digits_value(field) as u32)
    } else {
        None
    }
}

/// A longer run of digits writes no smaller number than its prefixes.
pub proof fn lemma_digits_value_grows(s: Seq<u8>, k: int)
    requires
        all_digits(s),
        0 <= k <= s.len(),
    ensures
        digits_value(s.take(k)) <= digits_value(s),
    decreases s.len(),
{
    if k == s.len() {
        assert(s.take(k) =~= s);
    } else {
        let init = s.drop_last();
        assert(init.take(k) =~= s.take(k));
        assert(is_digit(s.last()));
        lemma_digits_value_grows(init, k);
    }
}

/// Reads a group id from the bytes of its field.
pub fn parse_gid(field: &[u8]) -> (r: Option<u32>)
    ensures
        r == gid_of(field@),
{
    if field.len() == 0 {
        return None;
    }
    let mut value: u64 = 0;
    let mut i: usize = 0;
    while i < field.len()
        invariant
            i <= field@.len(),
            all_digits(field@.take(i as int)),
            value == digits_value(field@.take(i as int)),
            value <= u32::MAX,
        decreases field@.len() - i,
    {
        let b = field[i];
        if b < 0x30 || b > 0x39 {
            assert(!is_digit(field@[i as int]));
            return None;
        }
        let next: u64 = value * 10 + (b - 0x30) as u64;
        proof {
            let upto = field@.take(i + 1);
            assert(upto.drop_last() =~= field@.take(i as int));
            assert(upto.last() == b);
            assert forall|j: int| 0 <= j < upto.len() implies is_digit(#[trigger] upto[j]) by {
                if j < i {
                    assert(upto[j] == field@.take(i as int)[j]);
                }
            }
        }
        if next > u32::MAX as u64 {
            proof {
                if all_digits(field@) {
                    lemma_digits_value_grows(field@, i + 1);
                }
            }
            return None;
        }
        value = next;
        i += 1;
    }
    assert(field@.take(i as int) =~= field@);
    Some(value as u32)
}

/// What the scanner is looking for.
#[derive(Clone, Copy, Debug)]
pub enum State {
    SearchingForNameEnd,
    GoingThroughPassword,
    SearchingForGid,
    SearchingForUserList,
}

/// The offsets, from the start of the unread bytes, at which the four fields
/// of a record end. A field that the input ends before has the length of the
/// input as its end.
#[derive(Clone, Copy, Debug)]
pub struct FieldEnds {
    pub name: usize,
    pub password: usize,
    pub gid: usize,
    pub userlist: usize,
}

/// What the scanner knows after it has read the first `i` bytes.
pub open spec fn scanned(rest: Seq<u8>, i: int, state: State, ends: FieldEnds) -> bool {
    match state {
        State::SearchingForNameEnd => {
            &&& absent(rest, COLON, 0, i)
            &&& ends.name == rest.len()
            &&& ends.password == rest.len()
            &&& ends.gid == rest.len()
        },
        State::GoingThroughPassword => {
            &&& ends.name == name_end(rest)
            &&& ends.name < i
            &&& absent(rest, COLON, ends.name + 1, i)
            &&& ends.password == rest.len()
            &&& ends.gid == rest.len()
        },
        State::SearchingForGid => {
            &&& ends.name == name_end(rest)
            &&& ends.password == password_end(rest)
            &&& ends.name < ends.password < i
            &&& absent(rest, COLON, ends.password + 1, i)
            &&& ends.gid == rest.len()
        },
        State::SearchingForUserList => {
            &&& ends.name == name_end(rest)
            &&& ends.password == password_end(rest)
            &&& ends.gid == gid_end(rest)
            &&& ends.name < ends.password < ends.gid < i
            &&& absent(rest, NEWLINE, ends.gid + 1, i)
        },
    }
}

/// Scans the unread bytes once, from left to right, and reports where the
/// fields of the first record end.
pub fn scan(rest: &[u8]) -> (ends: FieldEnds)
    ensures
        ends.name == name_end(rest@),
        ends.password == password_end(rest@),
        ends.gid == gid_end(rest@),
        ends.userlist == userlist_end(rest@),
        ends.name <= ends.password <= ends.gid <= ends.userlist <= rest@.len(),
        ends.gid < rest@.len() ==> ends.name < ends.password < ends.gid < ends.userlist,
{
    let len = rest.len();
    let mut state = State::SearchingForNameEnd;
    let mut ends = FieldEnds { name: len, password: len, gid: len, userlist: len };
    let mut found = false;
    let mut i: usize = 0;
    while i < len && !found
        invariant
            len == rest@.len(),
            i <= len,
            scanned(rest@, if found { i - 1 } else { i as int }, state, ends),
            found ==> state is SearchingForUserList && ends.userlist == i - 1 && i >= 1
                && rest@[i - 1] == NEWLINE,
            !found ==> ends.userlist == len,
        decreases len - i,
    {
        let byte = rest[i];
        match state {
            State::SearchingForNameEnd => {
                if byte == COLON {
                    proof {
                        lemma_find_is(rest@, COLON, 0, i as int);
                    }
                    ends.name = i;
                    state = State::GoingThroughPassword;
                }
            },
            State::GoingThroughPassword => {
                if byte == COLON {
                    proof {
                        lemma_find_is(rest@, COLON, ends.name + 1, i as int);
                    }
                    ends.password = i;
                    state = State::SearchingForGid;
                }
            },
            State::SearchingForGid => {
                if byte == COLON {
                    proof {
                        lemma_find_is(rest@, COLON, ends.password + 1, i as int);
                    }
                    ends.gid = i;
                    state = State::SearchingForUserList;
                }
            },
            State::SearchingForUserList => {
                if byte == NEWLINE {
                    ends.userlist = i;
                    found = true;
                }
            },
        }
        i += 1;
    }
    proof {
        let s = rest@;
        match state {
            State::SearchingForNameEnd => {
                lemma_find_is(s, COLON, 0, len as int);
            },
            State::GoingThroughPassword => {
                lemma_find_is(s, COLON, ends.name + 1, len as int);
            },
            State::SearchingForGid => {
                lemma_find_is(s, COLON, ends.password + 1, len as int);
            },
            State::SearchingForUserList => {
                lemma_find_is(s, NEWLINE, ends.gid + 1, ends.userlist as int);
            },
        }
    }
    ends
}

} // verus!
