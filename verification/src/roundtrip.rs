//! Writing a record of the group database as a line, and reading the line
//! back.

use crate::group::{members_of, next_cursor, next_outcome, placeholder, GroupRecord};
use crate::group::{password_of, record_of, GroupErrorKind};
use crate::record::{
    all_digits, gid_bytes, gid_end, gid_of, is_digit, name_bytes, name_end, password_bytes,
    password_end, record_len, userlist_bytes, userlist_end,
};
use crate::scan::{absent, find, join, lemma_find_is, split, COLON, COMMA, NEWLINE};
use vstd::prelude::*;
use vstd::utf8::{valid_utf8, valid_utf8_concat};

verus! {

/// The line that writes a record: its four fields with colons between them,
/// the members with commas between them, and a newline at the end.
pub open spec fn record_line(
    name: Seq<u8>,
    password: Seq<u8>,
    gid: Seq<u8>,
    members: Seq<Seq<u8>>,
) -> Seq<u8> {
    name + seq![COLON] + password + seq![COLON] + gid + seq![COLON] + join(members, COMMA)
        + seq![NEWLINE]
}

/// True when `b` occurs nowhere in `s`.
pub open spec fn free_of(s: Seq<u8>, b: u8) -> bool {
    absent(s, b, 0, s.len() as int)
}

/// True when each member is well-formed text without a comma or a newline.
pub open spec fn plain_members(members: Seq<Seq<u8>>) -> bool {
    forall|i: int|
        0 <= i < members.len() ==> {
            &&& valid_utf8(#[trigger] members[i])
            &&& free_of(members[i], COMMA)
            &&& free_of(members[i], NEWLINE)
        }
}

/// A single ASCII byte is well-formed UTF-8.
pub proof fn lemma_ascii_byte_is_text(b: u8)
    requires
        b <= 0x7f,
    ensures
        valid_utf8(seq![b]),
{
    let s = seq![b];
    assert(s[0] == b);
    assert(s.subrange(1, 1) =~= Seq::<u8>::empty());
    reveal_with_fuel(valid_utf8, 2);
}

/// Joined members are well-formed text without a newline.
pub proof fn lemma_join_is_plain(members: Seq<Seq<u8>>)
    requires
        plain_members(members),
    ensures
        valid_utf8(join(members, COMMA)),
        free_of(join(members, COMMA), NEWLINE),
    decreases members.len(),
{
    if members.len() == 0 {
    } else if members.len() == 1 {
    } else {
        let rest = members.drop_first();
        assert forall|i: int| 0 <= i < rest.len() implies {
            &&& valid_utf8(#[trigger] rest[i])
            &&& free_of(rest[i], COMMA)
            &&& free_of(rest[i], NEWLINE)
        } by {
            assert(rest[i] == members[i + 1]);
        }
        lemma_join_is_plain(rest);
        lemma_ascii_byte_is_text(COMMA);
        valid_utf8_concat(members[0], seq![COMMA]);
        valid_utf8_concat(members[0] + seq![COMMA], join(rest, COMMA));
    }
}

/// Splitting what was joined gives the pieces back, as long as no piece
/// holds the separator.
pub proof fn lemma_split_join(parts: Seq<Seq<u8>>, sep: u8)
    requires
        parts.len() > 0,
        forall|i: int| 0 <= i < parts.len() ==> free_of(#[trigger] parts[i], sep),
    ensures
        split(join(parts, sep), sep) == parts,
    decreases parts.len(),
{
    let first = parts[0];
    if parts.len() == 1 {
        lemma_find_is(first, sep, 0, first.len() as int);
        assert(split(first, sep) =~= parts);
    } else {
        let rest = parts.drop_first();
        assert forall|i: int| 0 <= i < rest.len() implies free_of(#[trigger] rest[i], sep) by {
            assert(rest[i] == parts[i + 1]);
        }
        lemma_split_join(rest, sep);
        let joined = join(parts, sep);
        assert(joined == first + seq![sep] + join(rest, sep));
        assert forall|j: int| 0 <= j < first.len() implies joined[j] != sep by {
            assert(joined[j] == first[j]);
        }
        assert(joined[first.len() as int] == sep);
        lemma_find_is(joined, sep, 0, first.len() as int);
        assert(joined.subrange(0, first.len() as int) =~= first);
        assert(joined.subrange(first.len() as int + 1, joined.len() as int) =~= join(rest, sep));
        assert(split(joined, sep) =~= parts);
    }
}

/// The members of a written member list are the members that were written,
/// unless what was written is a single empty member, which reads as none.
pub proof fn lemma_members_read_back(members: Seq<Seq<u8>>)
    requires
        plain_members(members),
        members != seq![Seq::<u8>::empty()],
    ensures
        members_of(join(members, COMMA)) == members,
{
    if members.len() == 0 {
        assert(members =~= Seq::<Seq<u8>>::empty());
    } else {
        lemma_split_join(members, COMMA);
        if members.len() == 1 {
            if members[0].len() == 0 {
                assert(members[0] =~= Seq::<u8>::empty());
                assert(members =~= seq![Seq::<u8>::empty()]);
            }
        } else {
            let joined = join(members, COMMA);
            assert(joined == members[0] + seq![COMMA] + join(members.drop_first(), COMMA));
            assert(joined.len() > 0);
        }
    }
}

/// A well-formed line reads back as the record it writes.
///
/// Take a name and a password without a colon, a group id of ASCII digits
/// that fits in 32 bits, and members without a comma or a newline, all of
/// them well-formed text. Written as `name:password:gid:m1,m2,..` and a
/// newline, with anything after it, the line reads as that name, that group
/// id and those members in their order; the password reads as absent where
/// it is the placeholder; and the record takes up exactly the line. (A list
/// of one empty member is written as an empty list, and reads as no member.)
pub proof fn lemma_line_reads_back(
    name: Seq<u8>,
    password: Seq<u8>,
    gid: Seq<u8>,
    members: Seq<Seq<u8>>,
    tail: Seq<u8>,
)
    requires
        valid_utf8(name),
        free_of(name, COLON),
        valid_utf8(password),
        free_of(password, COLON),
        gid_of(gid) is Some,
        plain_members(members),
        members != seq![Seq::<u8>::empty()],
    ensures
        record_of(record_line(name, password, gid, members) + tail) == Ok::<_, GroupErrorKind>(
            GroupRecord {
                name,
                password: if password == placeholder() {
                    None
                } else {
                    Some(password)
                },
                userlist: join(members, COMMA),
                gid: gid_of(gid)->Some_0,
            },
        ),
        members_of(join(members, COMMA)) == members,
        record_len(record_line(name, password, gid, members) + tail) == record_line(
            name,
            password,
            gid,
            members,
        ).len(),
{
    let list = join(members, COMMA);
    let line = record_line(name, password, gid, members);
    let rest = line + tail;
    let n = name.len() as int;
    let p = n + 1 + password.len();
    let g = p + 1 + gid.len();
    let u = g + 1 + list.len();
    lemma_join_is_plain(members);
    lemma_members_read_back(members);
    assert(line.len() == u + 1);
    assert forall|j: int| 0 <= j < n implies rest[j] == name[j] by {}
    assert(rest[n] == COLON);
    assert forall|j: int| n + 1 <= j < p implies rest[j] == password[j - n - 1] by {}
    assert(rest[p] == COLON);
    assert forall|j: int| p + 1 <= j < g implies rest[j] == gid[j - p - 1] by {}
    assert(rest[g] == COLON);
    assert forall|j: int| g + 1 <= j < u implies rest[j] == list[j - g - 1] by {}
    assert(rest[u] == NEWLINE);
    assert forall|j: int| p + 1 <= j < g implies rest[j] != COLON by {
        assert(is_digit(gid[j - p - 1]));
    }
    lemma_find_is(rest, COLON, 0, n);
    lemma_find_is(rest, COLON, n + 1, p);
    lemma_find_is(rest, COLON, p + 1, g);
    lemma_find_is(rest, NEWLINE, g + 1, u);
    assert(name_end(rest) == n);
    assert(password_end(rest) == p);
    assert(gid_end(rest) == g);
    assert(userlist_end(rest) == u);
    assert(name_bytes(rest) =~= name);
    assert(password_bytes(rest) =~= password);
    assert(gid_bytes(rest) =~= gid);
    assert(userlist_bytes(rest) =~= list);
}

/// A reader that stands at the start of a well-formed line returns the
/// record that the line writes and moves to the byte after the line.
pub proof fn lemma_reader_returns_line(
    before: Seq<u8>,
    name: Seq<u8>,
    password: Seq<u8>,
    gid: Seq<u8>,
    members: Seq<Seq<u8>>,
    tail: Seq<u8>,
)
    requires
        valid_utf8(name),
        free_of(name, COLON),
        valid_utf8(password),
        free_of(password, COLON),
        gid_of(gid) is Some,
        plain_members(members),
        members != seq![Seq::<u8>::empty()],
    ensures
        ({
            let line = record_line(name, password, gid, members);
            let data = before + line + tail;
            let cursor = before.len() as int;
            &&& next_outcome(data, cursor) matches Ok(record)
            &&& record.name == name
            &&& record.gid == gid_of(gid)->Some_0
            &&& members_of(record.userlist) == members
            &&& record.password is None <==> password == placeholder()
            &&& next_cursor(data, cursor) == cursor + line.len()
        }),
{
    let line = record_line(name, password, gid, members);
    let data = before + line + tail;
    let cursor = before.len() as int;
    lemma_line_reads_back(name, password, gid, members, tail);
    assert(data.subrange(cursor, data.len() as int) =~= line + tail);
}

} // verus!
