//! The user database: lines of seven fields with colons between them. The
//! line feed that ends a line, and a carriage return before it, belong to no
//! field.

use crate::ids::{gid_raw, uid_raw};
use crate::scan::{absent, find, find_byte, lemma_find_is, splitn, NEWLINE};
use crate::text::{
    chars_of, cut_n, is_decimal, parse_unsigned, pieces, string_of, unsigned_digits, unsigned_of,
    without_cr,
};
use rustix::process::{Gid, Uid};
use vstd::prelude::*;
use vstd::string::StringSliceAdditionalSpecFns;
use vstd::utf8::{decode_utf8, encode_utf8_decode_utf8, valid_utf8};

verus! {

/// One user, as the text and the numbers of the fields.
pub struct PasswdRecord {
    pub name: Seq<char>,
    pub passwd: Seq<char>,
    pub uid: u32,
    pub gid: u32,
    pub gecos: Seq<char>,
    pub dir: Seq<char>,
    pub shell: Seq<char>,
}

/// One user of the system.
#[derive(Debug)]
pub struct Passwd {
    pub name: String,
    pub passwd: String,
    pub uid: Uid,
    pub gid: Gid,
    pub gecos: String,
    pub dir: String,
    pub shell: String,
}

impl View for Passwd {
    type V = PasswdRecord;

    open spec fn view(&self) -> PasswdRecord {
        PasswdRecord {
            name: self.name@,
            passwd: self.passwd@,
            uid: uid_raw(self.uid),
            gid: gid_raw(self.gid),
            gecos: self.gecos@,
            dir: self.dir@,
            shell: self.shell@,
        }
    }
}

/// The user that a line writes. The line must hold six colons at least: the
/// first six end the name, the password, the user id, the group id, the
/// description and the home directory, and all that follows the sixth is the
/// shell. The two ids must be numbers of 32 bits.
pub open spec fn passwd_of(line: Seq<char>) -> Option<PasswdRecord> {
    let fields = splitn(line, ':', 7);
    if fields.len() == 7 && unsigned_of(fields[2], u32::MAX as nat) is Some && unsigned_of(
        fields[3],
        u32::MAX as nat,
    ) is Some {
        Some(
            PasswdRecord {
                name: fields[0],
                passwd: fields[1],
                uid: unsigned_of(fields[2], u32::MAX as nat)->Some_0 as u32,
                gid: unsigned_of(fields[3], u32::MAX as nat)->Some_0 as u32,
                gecos: fields[4],
                dir: fields[5],
                shell: fields[6],
            },
        )
    } else {
        None
    }
}

/// A line without what ends it: a line feed, or a carriage return and a
/// line feed. A line that no line feed ends is left as it is.
pub open spec fn unterminated(line: Seq<char>) -> Seq<char> {
    if line.len() > 0 && line.last() == '\n' {
        without_cr(line.drop_last())
    } else {
        line
    }
}

/// Where the first line of the bytes ends, its line feed included.
pub open spec fn line_end(data: Seq<u8>) -> int {
    let at = find(data, NEWLINE, 0);
    if at < data.len() {
        at + 1
    } else {
        data.len() as int
    }
}

/// The first user with the given id among the lines, read in order. Each
/// line is read without what ends it. The search ends without a user at the
/// first line that is not well-formed UTF-8 or writes no user, and at the
/// end of the bytes.
pub open spec fn lookup(data: Seq<u8>, uid: u32) -> Option<PasswdRecord>
    decreases data.len(),
{
    let end = line_end(data);
    if 0 < end <= data.len() && valid_utf8(data.subrange(0, end)) {
        match passwd_of(unterminated(decode_utf8(data.subrange(0, end)))) {
            Some(user) => if user.uid == uid {
                Some(user)
            } else {
                lookup(data.subrange(end, data.len() as int), uid)
            },
            None => None,
        }
    } else {
        None
    }
}

/// A field, its colon and what follows.
pub open spec fn field_then(field: Seq<char>, rest: Seq<char>) -> Seq<char> {
    field + seq![':'] + rest
}

/// The line that writes a user, without what ends it: the seven fields with
/// colons between them, the two ids as the given digits.
pub open spec fn user_line(user: PasswdRecord, uid: Seq<char>, gid: Seq<char>) -> Seq<char> {
    field_then(
        user.name,
        field_then(
            user.passwd,
            field_then(
                uid,
                field_then(gid, field_then(user.gecos, field_then(user.dir, user.shell))),
            ),
        ),
    )
}

/// True when the text holds no colon.
pub open spec fn colon_free(s: Seq<char>) -> bool {
    absent(s, ':', 0, s.len() as int)
}

/// True of the three ways in which a line may end: in nothing, in a line
/// feed, in a carriage return and a line feed.
pub open spec fn is_ending(ending: Seq<char>) -> bool {
    ending == Seq::<char>::empty() || ending == seq!['\n'] || ending == seq!['\r', '\n']
}

/// True when the text does not end in `c`.
pub open spec fn ends_otherwise(s: Seq<char>, c: char) -> bool {
    s.len() > 0 ==> s.last() != c
}

/// A field without a colon is the first piece of what it begins, and the
/// other pieces are those of what follows its colon.
pub proof fn lemma_first_field(head: Seq<char>, rest: Seq<char>, n: nat)
    requires
        colon_free(head),
        n >= 2,
    ensures
        splitn(field_then(head, rest), ':', n) == seq![head] + splitn(rest, ':', (n - 1) as nat),
{
    let s = field_then(head, rest);
    let at = head.len() as int;
    assert forall|j: int| 0 <= j < at implies s[j] != ':' by {
        assert(s[j] == head[j]);
    }
    assert(s[at] == ':');
    lemma_find_is(s, ':', 0, at);
    assert(s.subrange(0, at) =~= head);
    assert(s.subrange(at + 1, s.len() as int) =~= rest);
}

/// What begins with a field and its colon ends as what follows ends, and
/// where nothing follows it ends in the colon.
pub proof fn lemma_end_of_fields(head: Seq<char>, rest: Seq<char>, c: char)
    requires
        ends_otherwise(rest, c),
        c != ':',
    ensures
        field_then(head, rest).len() > 0,
        field_then(head, rest).last() != c,
{
    let s = field_then(head, rest);
    if rest.len() > 0 {
        assert(s.last() == rest.last());
    } else {
        assert(s.last() == ':');
    }
}

/// The digits of a number hold no colon.
pub proof fn lemma_number_is_colon_free(s: Seq<char>, max: nat)
    requires
        unsigned_of(s, max) is Some,
    ensures
        colon_free(s),
{
    let digits = unsigned_digits(s);
    assert forall|j: int| 0 <= j < s.len() implies s[j] != ':' by {
        if s[0] == '+' {
            if j > 0 {
                assert(s[j] == digits[j - 1]);
                assert(is_decimal(digits[j - 1]));
            }
        } else {
            assert(is_decimal(digits[j]));
        }
    }
}

/// A line that ends in no line feed, and in no carriage return where a bare
/// line feed follows, is what is left when its ending is taken away.
pub proof fn lemma_ending_is_taken_away(line: Seq<char>, ending: Seq<char>)
    requires
        line.len() > 0,
        line.last() != '\n',
        ending == seq!['\n'] ==> line.last() != '\r',
        is_ending(ending),
    ensures
        unterminated(line + ending) == line,
{
    let whole = line + ending;
    if ending == Seq::<char>::empty() {
        assert(whole =~= line);
    } else if ending == seq!['\n'] {
        assert(whole.last() == '\n');
        assert(whole.drop_last() =~= line);
    } else {
        assert(whole.last() == '\n');
        let inner = whole.drop_last();
        assert(inner =~= line + seq!['\r']);
        assert(inner.last() == '\r');
        assert(inner.drop_last() =~= line);
    }
}

/// The seven fields of a written user are the fields that were written.
pub proof fn lemma_fields_of_user_line(user: PasswdRecord, uid: Seq<char>, gid: Seq<char>)
    requires
        colon_free(user.name),
        colon_free(user.passwd),
        colon_free(uid),
        colon_free(gid),
        colon_free(user.gecos),
        colon_free(user.dir),
    ensures
        splitn(user_line(user, uid, gid), ':', 7) == seq![
            user.name,
            user.passwd,
            uid,
            gid,
            user.gecos,
            user.dir,
            user.shell,
        ],
{
    let r5 = field_then(user.dir, user.shell);
    let r4 = field_then(user.gecos, r5);
    let r3 = field_then(gid, r4);
    let r2 = field_then(uid, r3);
    let r1 = field_then(user.passwd, r2);
    lemma_first_field(user.name, r1, 7);
    lemma_first_field(user.passwd, r2, 6);
    lemma_first_field(uid, r3, 5);
    lemma_first_field(gid, r4, 4);
    lemma_first_field(user.gecos, r5, 3);
    lemma_first_field(user.dir, user.shell, 2);
    assert(splitn(user.shell, ':', 1) == seq![user.shell]);
    assert(splitn(r5, ':', 2) =~= seq![user.dir, user.shell]);
    assert(splitn(r4, ':', 3) =~= seq![user.gecos, user.dir, user.shell]);
    assert(splitn(r3, ':', 4) =~= seq![gid, user.gecos, user.dir, user.shell]);
    assert(splitn(r2, ':', 5) =~= seq![uid, gid, user.gecos, user.dir, user.shell]);
    assert(splitn(r1, ':', 6) =~= seq![user.passwd, uid, gid, user.gecos, user.dir, user.shell]);
}

/// A written user is read back, and what ends the line belongs to no field.
///
/// Take a user whose name, password, description and home directory hold no
/// colon, and digits that write the two ids. Written as seven fields with
/// colons between them, and ended in nothing, in a line feed or in a
/// carriage return and a line feed, the line reads as that user, with the
/// shell as it was written. (The shell itself must not end in a line feed,
/// nor in a carriage return where a bare line feed ends the line: either
/// would be taken for a part of what ends the line.)
pub proof fn lemma_user_line_reads_back(
    user: PasswdRecord,
    uid: Seq<char>,
    gid: Seq<char>,
    ending: Seq<char>,
)
    requires
        colon_free(user.name),
        colon_free(user.passwd),
        colon_free(user.gecos),
        colon_free(user.dir),
        unsigned_of(uid, u32::MAX as nat) == Some(user.uid as nat),
        unsigned_of(gid, u32::MAX as nat) == Some(user.gid as nat),
        is_ending(ending),
        ends_otherwise(user.shell, '\n'),
        ending == seq!['\n'] ==> ends_otherwise(user.shell, '\r'),
    ensures
        passwd_of(unterminated(user_line(user, uid, gid) + ending)) == Some(user),
{
    let line = user_line(user, uid, gid);
    let r5 = field_then(user.dir, user.shell);
    let r4 = field_then(user.gecos, r5);
    let r3 = field_then(gid, r4);
    let r2 = field_then(uid, r3);
    let r1 = field_then(user.passwd, r2);
    lemma_end_of_fields(user.dir, user.shell, '\n');
    lemma_end_of_fields(user.gecos, r5, '\n');
    lemma_end_of_fields(gid, r4, '\n');
    lemma_end_of_fields(uid, r3, '\n');
    lemma_end_of_fields(user.passwd, r2, '\n');
    lemma_end_of_fields(user.name, r1, '\n');
    if ending == seq!['\n'] {
        lemma_end_of_fields(user.dir, user.shell, '\r');
        lemma_end_of_fields(user.gecos, r5, '\r');
        lemma_end_of_fields(gid, r4, '\r');
        lemma_end_of_fields(uid, r3, '\r');
        lemma_end_of_fields(user.passwd, r2, '\r');
        lemma_end_of_fields(user.name, r1, '\r');
    }
    lemma_ending_is_taken_away(line, ending);
    lemma_number_is_colon_free(uid, u32::MAX as nat);
    lemma_number_is_colon_free(gid, u32::MAX as nat);
    lemma_fields_of_user_line(user, uid, gid);
}

/// A lookup finds the user that the first line writes, without what ends
/// the line.
///
/// Let the bytes begin with a line that is the UTF-8 text of a written user
/// and its ending, with no line feed before the last byte of the line, and
/// let the line be ended by a line feed if anything follows it. Then looking
/// up the id of that user gives that user, with the shell as it was written.
pub proof fn lemma_first_user_is_found(
    first: Seq<u8>,
    more: Seq<u8>,
    user: PasswdRecord,
    uid: Seq<char>,
    gid: Seq<char>,
    ending: Seq<char>,
)
    requires
        colon_free(user.name),
        colon_free(user.passwd),
        colon_free(user.gecos),
        colon_free(user.dir),
        unsigned_of(uid, u32::MAX as nat) == Some(user.uid as nat),
        unsigned_of(gid, u32::MAX as nat) == Some(user.gid as nat),
        is_ending(ending),
        ends_otherwise(user.shell, '\n'),
        ending == seq!['\n'] ==> ends_otherwise(user.shell, '\r'),
        first.len() > 0,
        valid_utf8(first),
        decode_utf8(first) == user_line(user, uid, gid) + ending,
        absent(first, NEWLINE, 0, first.len() - 1),
        more.len() > 0 ==> first.last() == NEWLINE,
    ensures
        lookup(first + more, user.uid) == Some(user),
{
    let data = first + more;
    let last = first.len() - 1;
    lemma_user_line_reads_back(user, uid, gid, ending);
    if first.last() == NEWLINE {
        assert forall|j: int| 0 <= j < last implies data[j] != NEWLINE by {
            assert(data[j] == first[j]);
        }
        assert(data[last] == NEWLINE);
        lemma_find_is(data, NEWLINE, 0, last);
    } else {
        assert(data =~= first);
        lemma_find_is(data, NEWLINE, 0, data.len() as int);
    }
    assert(line_end(data) == first.len());
    assert(data.subrange(0, first.len() as int) =~= first);
}

impl Passwd {
    /// Reads one user from the text of a line, all of which is taken for
    /// fields.
    pub fn from_buf(buf: &str) -> (user: Option<Self>)
        ensures
            match user {
                Some(user) => passwd_of(buf@) == Some(user@),
                None => passwd_of(buf@) is None,
            },
    {
        let chars = chars_of(buf);
        Self::from_chars(chars.as_slice())
    }

    /// Reads one user from a line as it stands in the file, with or without
    /// what ends it.
    pub fn from_line(line: &str) -> (user: Option<Self>)
        ensures
            match user {
                Some(user) => passwd_of(unterminated(line@)) == Some(user@),
                None => passwd_of(unterminated(line@)) is None,
            },
    {
        let chars = chars_of(line);
        let len = chars.len();
        let end = if len > 0 && chars[len - 1] == '\n' {
            if len > 1 && chars[len - 2] == '\r' {
                len - 2
            } else {
                len - 1
            }
        } else {
            len
        };
        let fields = &chars.as_slice()[0..end];
        proof {
            if len > 0 && chars@[len - 1] == '\n' {
                assert(chars@.drop_last() =~= chars@.subrange(0, len - 1));
                assert(fields@ =~= without_cr(chars@.drop_last()));
            } else {
                assert(fields@ =~= chars@);
            }
        }
        Self::from_chars(fields)
    }

    /// Reads one user from the characters of a line.
    pub fn from_chars(line: &[char]) -> (user: Option<Self>)
        ensures
            match user {
                Some(user) => passwd_of(line@) == Some(user@),
                None => passwd_of(line@) is None,
            },
    {
        let fields = cut_n(line, ':', 7);
        if fields.len() != 7 {
            return None;
        }
        assert(forall|i: int| 0 <= i < 7 ==> pieces(fields@)[i] == fields@[i]@);
        let uid = match parse_unsigned(fields[2], u32::MAX as u64) {
            Some(uid) => uid as u32,
            None => {
                return None;
            },
        };
        let gid = match parse_unsigned(fields[3], u32::MAX as u64) {
            Some(gid) => gid as u32,
            None => {
                return None;
            },
        };
        Some(
            Passwd {
                name: string_of(fields[0]),
                passwd: string_of(fields[1]),
                uid: Uid::from_raw_unchecked(uid),
                gid: Gid::from_raw_unchecked(gid),
                gecos: string_of(fields[4]),
                dir: string_of(fields[5]),
                shell: string_of(fields[6]),
            },
        )
    }
}

/// Looks a user up by id in what reading the user database gave. A failed
/// read gives no user.
pub fn getpwuid(read: Result<Vec<u8>, std::io::Error>, uid: Uid) -> (user: Option<Passwd>)
    ensures
        match read {
            Ok(data) => match user {
                Some(user) => lookup(data@, uid_raw(uid)) == Some(user@),
                None => lookup(data@, uid_raw(uid)) is None,
            },
            Err(_) => user is None,
        },
{
    let data = match read {
        Ok(data) => data,
        Err(_) => {
            return None;
        },
    };
    let wanted = uid.as_raw();
    let mut rest: &[u8] = data.as_slice();
    while rest.len() > 0
        invariant
            read is Ok && read->Ok_0 == data,
            lookup(data@, uid_raw(uid)) == lookup(rest@, uid_raw(uid)),
            wanted == uid_raw(uid),
        decreases rest@.len(),
    {
        let len = rest.len();
        let at = find_byte(rest, NEWLINE, 0);
        let end = if at < len {
            at + 1
        } else {
            len
        };
        let line = match core::str::from_utf8(&rest[0..end]) {
            Ok(line) => line,
            Err(_) => {
                return None;
            },
        };
        proof {
            encode_utf8_decode_utf8(line@);
        }
        match Passwd::from_line(line) {
            Some(user) => {
                if user.uid.as_raw() == wanted {
                    return Some(user);
                }
            },
            None => {
                return None;
            },
        }
        rest = &rest[end..len];
    }
    None
}

} // verus!
