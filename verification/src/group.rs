//! The group database: one record at a time, as views into the bytes read.

use crate::ids::gid_raw;
use crate::record::{
    gid_bytes, gid_end, gid_of, is_complete, name_bytes, name_end, parse_gid, password_bytes,
    password_end, record_len, scan, userlist_bytes,
};
use crate::scan::{find_byte, lemma_find_bounds, split, COLON, COMMA, NEWLINE};
use core::str::Utf8Error;
use rustix::process::Gid;
use vstd::prelude::*;
use vstd::std_specs::convert::FromSpecImpl;
use vstd::string::{to_string_from_display_ensures, StringSliceAdditionalSpecFns};
use vstd::utf8::{
    decode_utf8, encode_utf8_decode_utf8, encode_utf8_valid_utf8, is_char_boundary,
    is_char_boundary_iff_not_is_continuation_byte, is_continuation_byte, valid_utf8,
};

verus! {

/// The kinds of failure, without what a failure carries.
#[derive(Debug, Clone, Copy, PartialEq, Eq, Structural)]
pub enum GroupErrorKind {
    /// A text field of the record is not well-formed UTF-8.
    InvalidUtf8,
    /// The group-id field is missing or is not a base-ten number of 32 bits.
    InvalidDigits,
    /// The file could not be read.
    IoError,
    /// Every byte has been consumed: the normal end of a scan.
    Eof,
}

/// Why no reader or no record was returned.
#[derive(Debug)]
pub enum GroupParseError {
    /// A text field of the record is not well-formed UTF-8; the error is
    /// that of the decoding.
    InvalidUtf8(Utf8Error),
    /// The group-id field is missing or is not a base-ten number of 32 bits.
    InvalidDigits,
    /// The file could not be read; the error is that of the read.
    IoError(std::io::Error),
    /// Every byte has been consumed: the normal end of a scan.
    Eof,
}

impl GroupParseError {
    /// The kind of the failure.
    pub open spec fn spec_kind(&self) -> GroupErrorKind {
        match *self {
            GroupParseError::InvalidUtf8(_) => GroupErrorKind::InvalidUtf8,
            GroupParseError::InvalidDigits => GroupErrorKind::InvalidDigits,
            GroupParseError::IoError(_) => GroupErrorKind::IoError,
            GroupParseError::Eof => GroupErrorKind::Eof,
        }
    }

    /// The kind of the failure.
    #[verifier::when_used_as_spec(spec_kind)]
    pub fn kind(&self) -> (kind: GroupErrorKind)
        ensures
            kind == self.spec_kind(),
    {
        match self {
            GroupParseError::InvalidUtf8(_) => GroupErrorKind::InvalidUtf8,
            GroupParseError::InvalidDigits => GroupErrorKind::InvalidDigits,
            GroupParseError::IoError(_) => GroupErrorKind::IoError,
            GroupParseError::Eof => GroupErrorKind::Eof,
        }
    }

    /// What went wrong, in words: the words of the error that the failure
    /// carries, where it carries one.
    pub fn message(&self) -> (text: String)
        ensures
            match *self {
                GroupParseError::InvalidUtf8(e) => to_string_from_display_ensures::<Utf8Error>(
                    &e,
                    text,
                ),
                GroupParseError::InvalidDigits => text@ == "invalid digit found in string"@,
                GroupParseError::IoError(e) => to_string_from_display_ensures::<std::io::Error>(
                    &e,
                    text,
                ),
                GroupParseError::Eof => text@ == "end-of-file"@,
            },
    {
        match self {
            GroupParseError::InvalidUtf8(e) => e.to_string(),
            GroupParseError::InvalidDigits => "invalid digit found in string".to_owned(),
            GroupParseError::IoError(e) => e.to_string(),
            GroupParseError::Eof => "end-of-file".to_owned(),
        }
    }
}

impl From<std::io::Error> for GroupParseError {
    fn from(value: std::io::Error) -> (error: Self) {
        GroupParseError::IoError(value)
    }
}

impl FromSpecImpl<std::io::Error> for GroupParseError {
    open spec fn obeys_from_spec() -> bool {
        true
    }

    open spec fn from_spec(value: std::io::Error) -> Self {
        GroupParseError::IoError(value)
    }
}

impl From<Utf8Error> for GroupParseError {
    fn from(value: Utf8Error) -> (error: Self) {
        GroupParseError::InvalidUtf8(value)
    }
}

impl FromSpecImpl<Utf8Error> for GroupParseError {
    open spec fn obeys_from_spec() -> bool {
        true
    }

    open spec fn from_spec(value: Utf8Error) -> Self {
        GroupParseError::InvalidUtf8(value)
    }
}

/// The placeholder that stands in the password field when the password is
/// kept elsewhere: the single byte `x`.
pub open spec fn placeholder() -> Seq<u8> {
    seq![0x78u8]
}

/// One record, as the bytes of its fields.
pub struct GroupRecord {
    pub name: Seq<u8>,
    pub password: Option<Seq<u8>>,
    pub userlist: Seq<u8>,
    pub gid: u32,
}

/// What a password field says: nothing where it holds the placeholder, else
/// its own text, which must be well-formed UTF-8.
pub open spec fn password_of(field: Seq<u8>) -> Result<Option<Seq<u8>>, GroupErrorKind> {
    if field == placeholder() {
        Ok(None)
    } else if valid_utf8(field) {
        Ok(Some(field))
    } else {
        Err(GroupErrorKind::InvalidUtf8)
    }
}

/// The record that the unread bytes begin with, or the reason there is none.
/// A missing or malformed group id is reported before malformed text.
pub open spec fn record_of(rest: Seq<u8>) -> Result<GroupRecord, GroupErrorKind> {
    if !is_complete(rest) || gid_of(gid_bytes(rest)) is None {
        Err(GroupErrorKind::InvalidDigits)
    } else if !valid_utf8(name_bytes(rest)) || password_of(password_bytes(rest)) is Err
        || !valid_utf8(userlist_bytes(rest)) {
        Err(GroupErrorKind::InvalidUtf8)
    } else {
        Ok(
            GroupRecord {
                name: name_bytes(rest),
                password: password_of(password_bytes(rest))->Ok_0,
                userlist: userlist_bytes(rest),
                gid: gid_of(gid_bytes(rest))->Some_0,
            },
        )
    }
}

/// The members that a member list names: none where the list is empty, else
/// the pieces between its commas.
pub open spec fn members_of(list: Seq<u8>) -> Seq<Seq<u8>> {
    if list.len() == 0 {
        Seq::empty()
    } else {
        split(list, COMMA)
    }
}

/// The bytes of each of the string slices.
pub open spec fn texts(slices: Seq<&str>) -> Seq<Seq<u8>> {
    Seq::new(slices.len(), |i: int| slices[i].spec_bytes())
}

/// One record of the group database. Its text fields are views into the
/// bytes of the reader that produced it.
#[derive(Debug, Clone, Copy)]
pub struct GroupEntry<'a> {
    name: &'a str,
    password: Option<&'a str>,
    userlist: &'a str,
    gid: Gid,
}

impl<'a> View for GroupEntry<'a> {
    type V = GroupRecord;

    closed spec fn view(&self) -> GroupRecord {
        GroupRecord {
            name: self.name.spec_bytes(),
            password: match self.password {
                Some(p) => Some(p.spec_bytes()),
                None => None,
            },
            userlist: self.userlist.spec_bytes(),
            gid: gid_raw(self.gid),
        }
    }
}

impl GroupEntry<'_> {
    /// The name of the group.
    pub fn group_name(&self) -> (name: &str)
        ensures
            name.spec_bytes() == self@.name,
            name@ == decode_utf8(self@.name),
    {
        proof {
            encode_utf8_decode_utf8(self.name@);
        }
        self.name
    }

    /// The password of the group; `None` where the record holds the
    /// placeholder `x`.
    pub fn group_password(&self) -> (password: Option<&str>)
        ensures
            match password {
                Some(p) => self@.password == Some(p.spec_bytes()) && p@ == decode_utf8(
                    p.spec_bytes(),
                ),
                None => self@.password is None,
            },
    {
        proof {
            if let Some(p) = self.password {
                encode_utf8_decode_utf8(p@);
            }
        }
        self.password
    }

    /// The member list as it stands in the record, commas included.
    pub fn userlist_raw(&self) -> (list: &str)
        ensures
            list.spec_bytes() == self@.userlist,
            list@ == decode_utf8(self@.userlist),
    {
        proof {
            encode_utf8_decode_utf8(self.userlist@);
        }
        self.userlist
    }

    /// The members of the group, in the order of the record. Each call
    /// splits the member list anew, so each returns the same members.
    pub fn userlist(&self) -> (members: Vec<&str>)
        ensures
            texts(members@) == members_of(self@.userlist),
    {
        let mut members: Vec<&str> = Vec::new();
        let mut rest: &str = self.userlist;
        if rest.as_bytes().len() == 0 {
            assert(texts(members@) =~= Seq::<Seq<u8>>::empty());
            return members;
        }
        loop
            invariant
                split(self.userlist.spec_bytes(), COMMA) == texts(members@) + split(
                    rest.spec_bytes(),
                    COMMA,
                ),
                self.userlist.spec_bytes().len() > 0,
            decreases rest.spec_bytes().len(),
        {
            let bytes = rest.as_bytes();
            let at = find_byte(bytes, COMMA, 0);
            let ghost before = texts(members@);
            if at >= bytes.len() {
                members.push(rest);
                assert(texts(members@) =~= before + seq![rest.spec_bytes()]);
                return members;
            }
            proof {
                encode_utf8_valid_utf8(rest@);
                assert(!is_continuation_byte(bytes@[at as int]));
                is_char_boundary_iff_not_is_continuation_byte(bytes@, at as int);
            }
            let (piece, tail) = rest.split_at(at);
            proof {
                encode_utf8_valid_utf8(tail@);
                assert(tail.spec_bytes()[0] == COMMA);
                reveal_with_fuel(is_char_boundary, 2);
                assert(is_char_boundary(tail.spec_bytes(), 1));
            }
            let (_, after) = tail.split_at(1);
            members.push(piece);
            proof {
                assert(after.spec_bytes() =~= bytes@.subrange(at + 1, bytes@.len() as int));
                assert(texts(members@) =~= before + seq![piece.spec_bytes()]);
            }
            rest = after;
        }
    }

    /// The numeric id of the group.
    pub fn gid(&self) -> (gid: Gid)
        ensures
            gid_raw(gid) == self@.gid,
    {
        self.gid
    }
}

/// Reads a password field.
pub fn group_passwd(data: &[u8]) -> (r: Result<Option<&str>, GroupParseError>)
    ensures
        match r {
            Ok(Some(p)) => password_of(data@) == Ok::<_, GroupErrorKind>(Some(p.spec_bytes())),
            Ok(None) => password_of(data@) == Ok::<Option<Seq<u8>>, GroupErrorKind>(None),
            Err(e) => password_of(data@) == Err::<Option<Seq<u8>>, _>(e.kind()),
        },
{
    if data.len() == 1 && data[0] == 0x78 {
        assert(data@ =~= placeholder());
        return Ok(None);
    }
    assert(data@ != placeholder()) by {
        if data@ == placeholder() {
            assert(placeholder().len() == 1);
            assert(placeholder()[0] == 0x78u8);
        }
    }
    match core::str::from_utf8(data) {
        Ok(text) => Ok(Some(text)),
        Err(e) => Err(GroupParseError::from(e)),
    }
}

/// What a call returned: the record as the bytes of its fields, or the kind
/// of the failure.
pub open spec fn outcome<'a>(r: Result<GroupEntry<'a>, GroupParseError>) -> Result<
    GroupRecord,
    GroupErrorKind,
> {
    match r {
        Ok(entry) => Ok(entry@),
        Err(e) => Err(e.kind()),
    }
}

/// Slices the first record out of the unread bytes. Returns the record and
/// the number of bytes it took up, its newline included.
pub fn parse_record<'a>(rest: &'a [u8]) -> (r: Result<(GroupEntry<'a>, usize), GroupParseError>)
    ensures
        match r {
            Ok((entry, taken)) => record_of(rest@) == Ok::<_, GroupErrorKind>(entry@) && taken
                == record_len(rest@),
            Err(e) => record_of(rest@) == Err::<GroupRecord, _>(e.kind()),
        },
{
    let ends = scan(rest);
    if ends.gid >= rest.len() {
        return Err(GroupParseError::InvalidDigits);
    }
    let gid = match parse_gid(&rest[ends.password + 1..ends.gid]) {
        Some(gid) => gid,
        None => {
            return Err(GroupParseError::InvalidDigits);
        },
    };
    let name = match core::str::from_utf8(&rest[0..ends.name]) {
        Ok(name) => name,
        Err(e) => {
            return Err(GroupParseError::from(e));
        },
    };
    let password = match group_passwd(&rest[ends.name + 1..ends.password]) {
        Ok(password) => password,
        Err(e) => {
            return Err(e);
        },
    };
    let userlist = match core::str::from_utf8(&rest[ends.gid + 1..ends.userlist]) {
        Ok(userlist) => userlist,
        Err(e) => {
            return Err(GroupParseError::from(e));
        },
    };
    let taken = if ends.userlist < rest.len() {
        ends.userlist + 1
    } else {
        rest.len()
    };
    let entry = GroupEntry { name, password, userlist, gid: Gid::from_raw_unchecked(gid) };
    Ok((entry, taken))
}

/// What the next call returns, given the bytes read and the offset of the
/// first unread byte.
pub open spec fn next_outcome(data: Seq<u8>, cursor: int) -> Result<GroupRecord, GroupErrorKind> {
    if cursor >= data.len() {
        Err(GroupErrorKind::Eof)
    } else {
        record_of(data.subrange(cursor, data.len() as int))
    }
}

/// Where the next call leaves the cursor: past the record it returned, its
/// newline included, or where it was if it returned none.
pub open spec fn next_cursor(data: Seq<u8>, cursor: int) -> int {
    if next_outcome(data, cursor) is Ok {
        cursor + record_len(data.subrange(cursor, data.len() as int))
    } else {
        cursor
    }
}

/// Where the cursor stands after a number of calls.
pub open spec fn cursor_after(data: Seq<u8>, cursor: int, calls: nat) -> int
    decreases calls,
{
    if calls == 0 {
        cursor
    } else {
        next_cursor(data, cursor_after(data, cursor, (calls - 1) as nat))
    }
}

/// A record has no password exactly when its password field holds the
/// placeholder `x` and nothing else; any other password is the field as it
/// stands.
pub proof fn lemma_password_absent_iff_placeholder(rest: Seq<u8>)
    requires
        record_of(rest) is Ok,
    ensures
        record_of(rest)->Ok_0.password is None <==> password_bytes(rest) == placeholder(),
        record_of(rest)->Ok_0.password matches Some(p) ==> p == password_bytes(rest),
{
}

/// Once every byte has been consumed, each further call reports the end of
/// the input and leaves the cursor where it is, however many calls are made.
pub proof fn lemma_end_of_input_is_final(data: Seq<u8>, cursor: int, calls: nat)
    requires
        cursor >= data.len(),
    ensures
        cursor_after(data, cursor, calls) == cursor,
        next_outcome(data, cursor_after(data, cursor, calls)) == Err::<GroupRecord, _>(
            GroupErrorKind::Eof,
        ),
    decreases calls,
{
    if calls > 0 {
        lemma_end_of_input_is_final(data, cursor, (calls - 1) as nat);
    }
}

/// The cursor never moves back and never passes the end of the input; a
/// call that returns a record moves it forward, and a call that returns none
/// leaves it where it was.
pub proof fn lemma_cursor_moves_forward(data: Seq<u8>, cursor: int)
    requires
        0 <= cursor <= data.len(),
    ensures
        cursor <= next_cursor(data, cursor) <= data.len(),
        next_outcome(data, cursor) is Ok ==> cursor < next_cursor(data, cursor),
        next_outcome(data, cursor) is Err ==> next_cursor(data, cursor) == cursor,
{
    let rest = data.subrange(cursor, data.len() as int);
    if next_outcome(data, cursor) is Ok {
        lemma_find_bounds(rest, COLON, 0);
        lemma_find_bounds(rest, COLON, name_end(rest) + 1);
        lemma_find_bounds(rest, COLON, password_end(rest) + 1);
        lemma_find_bounds(rest, NEWLINE, gid_end(rest) + 1);
    }
}

/// Two splittings of one member list name the same members: what the
/// splitting returns depends on the record alone.
pub proof fn lemma_members_again(list: Seq<u8>, first: Seq<&str>, second: Seq<&str>)
    requires
        texts(first) == members_of(list),
        texts(second) == members_of(list),
    ensures
        first.len() == second.len(),
        forall|i: int| 0 <= i < first.len() ==> (#[trigger] first[i])@ == second[i]@,
{
    assert(texts(first).len() == first.len());
    assert(texts(second).len() == second.len());
    assert forall|i: int| 0 <= i < first.len() implies (#[trigger] first[i])@ == second[i]@ by {
        assert(texts(first)[i] == first[i].spec_bytes());
        assert(texts(second)[i] == second[i].spec_bytes());
        encode_utf8_decode_utf8(first[i]@);
        encode_utf8_decode_utf8(second[i]@);
    }
}

/// The bytes of a group database and a cursor that walks them, one record
/// per call.
#[derive(Debug)]
pub struct GroupEntries {
    data: Vec<u8>,
    last_index: usize,
}

impl GroupEntries {
    #[verifier::type_invariant]
    spec fn cursor_within(&self) -> bool {
        self.last_index <= self.data@.len()
    }

    /// The bytes that were read.
    pub closed spec fn data(&self) -> Seq<u8> {
        self.data@
    }

    /// The offset of the first unread byte.
    pub closed spec fn cursor(&self) -> int {
        self.last_index as int
    }

    /// Takes what reading the file gave. Starts at the first byte. A failed
    /// read gives no reader, and the failure carries the error of the read.
    pub fn new(read: Result<Vec<u8>, std::io::Error>) -> (r: Result<Self, GroupParseError>)
        ensures
            match read {
                Ok(bytes) => r matches Ok(entries) && entries.data() == bytes@ && entries.cursor()
                    == 0,
                Err(e) => r matches Err(GroupParseError::IoError(same)) && same == e,
            },
    {
        match read {
            Ok(data) => Ok(GroupEntries { data, last_index: 0 }),
            Err(e) => Err(GroupParseError::from(e)),
        }
    }

    /// Returns the next record and moves past it.
    ///
    /// Returns `Err(GroupParseError::Eof)` once every byte has been
    /// consumed, however often it is called. A record that cannot be
    /// returned leaves the cursor where it was. The last record need not end
    /// in a newline: the end of the input ends it too.
    pub fn next_entry(&mut self) -> (r: Result<GroupEntry<'_>, GroupParseError>)
        ensures
            outcome(r) == next_outcome(old(self).data(), old(self).cursor()),
            final(self).cursor() == next_cursor(old(self).data(), old(self).cursor()),
            final(self).data() == old(self).data(),
            old(self).cursor() <= final(self).cursor() <= final(self).data().len(),
    {
        proof {
            use_type_invariant(&*self);
        }
        let start = self.last_index;
        let len = self.data.len();
        if start >= len {
            return Err(GroupParseError::Eof);
        }
        match parse_record(&self.data.as_slice()[start..len]) {
            Ok((entry, taken)) => {
                self.last_index = start + taken;
                Ok(entry)
            },
            Err(e) => Err(e),
        }
    }
}

} // verus!
