//! Object identifiers: what a history view names commits by, whatever the provider calls them.

use crate::error::VcsError;
use crate::text::{ascii_lower, characters, same_text};
use vstd::hash_map::StringHashMap;
use vstd::prelude::*;
use vstd::utf8::encode_utf8;

verus! {

/// A hexadecimal digit, in either case.
pub open spec fn is_hex(c: char) -> bool {
    '0' <= c <= '9' || 'a' <= c <= 'f' || 'A' <= c <= 'F'
}

/// A hexadecimal digit in lower case.
pub open spec fn is_lower_hex(c: char) -> bool {
    '0' <= c <= '9' || 'a' <= c <= 'f'
}

/// The text of an object identifier: 40 or 64 lowercase hexadecimal digits.
pub open spec fn valid_oid(text: Seq<char>) -> bool {
    &&& text.len() == 40 || text.len() == 64
    &&& forall|i: int| 0 <= i < text.len() ==> is_lower_hex(#[trigger] text[i])
}

/// The object identifier that `text` spells, in either case.
pub open spec fn parsed_oid(text: Seq<char>) -> Option<Seq<char>> {
    if (text.len() == 40 || text.len() == 64) && forall|i: int|
        0 <= i < text.len() ==> is_hex(#[trigger] text[i]) {
        Some(text.map_values(|c: char| ascii_lower(c)))
    } else {
        None
    }
}

/// The hexadecimal digit of a number below sixteen.
pub open spec fn hex_digit(n: int) -> char {
    if n < 10 {
        (48 + n) as char
    } else {
        (87 + n) as char
    }
}

/// Bytes in hexadecimal: two digits each, the higher one first.
pub open spec fn hex_of(bytes: Seq<u8>) -> Seq<char> {
    Seq::new(
        2 * bytes.len(),
        |i: int|
            hex_digit(
                if i % 2 == 0 {
                    bytes[i / 2] as int / 16
                } else {
                    bytes[i / 2] as int % 16
                },
            ),
    )
}

/// The bytes that begin the identifier of a revision which is none itself: `vcs!`.
pub open spec fn opaque_mark() -> Seq<u8> {
    seq![0x76u8, 0x63u8, 0x73u8, 0x21u8]
}

/// The bytes of the version 5 UUID of a name in the namespace of object identifiers.
pub uninterp spec fn oid_namespace_uuid(name: Seq<u8>) -> Seq<u8>;

/// Calls `uuid::Uuid::new_v5` with `Uuid::NAMESPACE_OID`: sixteen bytes that depend on the name
/// alone.
#[verifier::external_body]
pub(crate) fn name_uuid(name: &[u8]) -> (bytes: Vec<u8>)
    ensures
        bytes@ == oid_namespace_uuid(name@),
        bytes@.len() == 16,
{
    uuid::Uuid::new_v5(&uuid::Uuid::NAMESPACE_OID, name).as_bytes().to_vec()
}

/// The object identifier of a revision: the one that it spells, or else one made of its name.
pub open spec fn oid_of(revision: Seq<char>) -> Seq<char> {
    match parsed_oid(revision) {
        Some(oid) => oid,
        None => hex_of(opaque_mark() + oid_namespace_uuid(encode_utf8(revision))),
    }
}

/// An object identifier.
#[derive(Debug, PartialEq, Eq, Hash)]
pub struct Oid {
    pub hex: String,
}

impl View for Oid {
    type V = Seq<char>;

    open spec fn view(&self) -> Seq<char> {
        self.hex@
    }
}

impl Oid {
    /// Reads an object identifier.
    pub fn parse(text: &str) -> (oid: Option<Oid>)
        ensures
            match parsed_oid(text@) {
                Some(hex) => oid matches Some(oid) && oid@ == hex && valid_oid(oid@),
                None => oid is None,
            },
    {
        let chars: Vec<char> = characters(text);
        if chars.len() != 40 && chars.len() != 64 {
            return None;
        }
        let ghost lower = text@.map_values(|c: char| ascii_lower(c));
        let mut hex = String::new();
        let mut i: usize = 0;
        while i < chars.len()
            invariant
                i <= chars@.len(),
                chars@ == text@,
                lower == text@.map_values(|c: char| ascii_lower(c)),
                hex@ == lower.take(i as int),
                forall|j: int| 0 <= j < i ==> is_hex(#[trigger] text@[j]),
            decreases chars@.len() - i,
        {
            let c: char = chars[i];
            if ('0' <= c && c <= '9') || ('a' <= c && c <= 'f') {
                hex.push(c);
            } else if 'A' <= c && c <= 'F' {
                hex.push((c as u8 + 32) as char);
            } else {
                assert(!is_hex(text@[i as int]));
                return None;
            }
            assert(hex@.last() == lower[i as int]);
            i += 1;
            assert(lower.take(i as int) == lower.take(i - 1).push(lower[i - 1]));
        }
        assert(lower.take(i as int) == lower);
        proof {
            assert forall|j: int| 0 <= j < lower.len() implies is_lower_hex(#[trigger] lower[j]) by {
                assert(is_hex(text@[j]));
            }
        }
        Some(Oid { hex })
    }

    /// The identifier of something that the provider calls by no object identifier, from the UUID
    /// of its name.
    pub fn opaque(uuid: &[u8]) -> (oid: Oid)
        requires
            uuid@.len() == 16,
        ensures
            oid@ == hex_of(opaque_mark() + uuid@),
            valid_oid(oid@),
    {
        let ghost bytes = opaque_mark() + uuid@;
        let ghost whole = hex_of(bytes);
        let mut hex = String::new();
        let mut i: usize = 0;
        while i < 20
            invariant
                i <= 20,
                uuid@.len() == 16,
                bytes == opaque_mark() + uuid@,
                whole == hex_of(bytes),
                hex@ == whole.take(2 * i as int),
            decreases 20 - i,
        {
            let byte: u8 = if i == 0 {
                0x76
            } else if i == 1 {
                0x63
            } else if i == 2 {
                0x73
            } else if i == 3 {
                0x21
            } else {
                uuid[i - 4]
            };
            assert(byte == bytes[i as int]);
            hex.push(digit(byte / 16));
            hex.push(digit(byte % 16));
            assert(whole[2 * i] == hex_digit(byte as int / 16));
            assert(whole[2 * i + 1] == hex_digit(byte as int % 16));
            i += 1;
            assert(whole.take(2 * i as int) == whole.take(2 * (i - 1)).push(whole[2 * i - 2]).push(
                whole[2 * i - 1],
            ));
        }
        assert(whole.take(40) == whole);
        proof {
            assert forall|j: int| 0 <= j < whole.len() implies is_lower_hex(#[trigger] whole[j]) by {
                assert(0 <= bytes[j / 2] as int / 16 < 16);
            }
        }
        Oid { hex }
    }

    /// The object identifier of a revision.
    pub fn of_revision(revision: &str) -> (oid: Oid)
        ensures
            oid@ == oid_of(revision@),
            valid_oid(oid@),
    {
        match Oid::parse(revision) {
            Some(oid) => oid,
            None => {
                let uuid: Vec<u8> = name_uuid(revision.as_bytes());
                Oid::opaque(&uuid)
            },
        }
    }

    /// The text of this identifier.
    pub fn text(&self) -> (text: String)
        ensures
            text@ == self@,
    {
        self.hex.clone()
    }

    /// The same identifier again.
    pub fn copy(&self) -> (oid: Oid)
        ensures
            oid == *self,
    {
        Oid { hex: self.hex.clone() }
    }
}

fn digit(n: u8) -> (c: char)
    requires
        n < 16,
    ensures
        c == hex_digit(n as int),
{
    if n < 10 {
        (48 + n) as char
    } else {
        (87 + n) as char
    }
}

/// Every revision has a valid object identifier, and one that is an object identifier in lower case
/// is its own.
pub proof fn law_oids_are_valid(revision: Seq<char>, uuid: Seq<u8>)
    requires
        uuid.len() == 16,
    ensures
        parsed_oid(revision) matches Some(oid) ==> valid_oid(oid),
        valid_oid(hex_of(opaque_mark() + uuid)),
        valid_oid(revision) ==> parsed_oid(revision) == Some(revision),
{
    let lower = revision.map_values(|c: char| ascii_lower(c));
    if parsed_oid(revision) is Some {
        assert forall|j: int| 0 <= j < lower.len() implies is_lower_hex(#[trigger] lower[j]) by {
            assert(is_hex(revision[j]));
        }
    }
    let bytes = opaque_mark() + uuid;
    let whole = hex_of(bytes);
    assert forall|j: int| 0 <= j < whole.len() implies is_lower_hex(#[trigger] whole[j]) by {
        assert(0 <= bytes[j / 2] as int / 16 < 16);
    }
    if valid_oid(revision) {
        assert forall|j: int| 0 <= j < revision.len() implies is_hex(#[trigger] revision[j])
            && lower[j] == revision[j] by {
            assert(is_lower_hex(revision[j]));
        }
        assert(lower =~= revision);
    }
}

/// What is known of revisions by their object identifiers.
pub struct RevisionTable {
    pub revisions: StringHashMap<String>,
}

impl View for RevisionTable {
    type V = Map<Seq<char>, Seq<char>>;

    open spec fn view(&self) -> Map<Seq<char>, Seq<char>> {
        self.revisions@.map_values(|revision: String| revision@)
    }
}

/// A table after a revision was recorded; an identifier never changes its meaning.
pub open spec fn recorded(table: Map<Seq<char>, Seq<char>>, revision: Seq<char>) -> Result<
    Map<Seq<char>, Seq<char>>,
    VcsError,
> {
    let oid = oid_of(revision);
    if table.contains_key(oid) && table[oid] != revision {
        Err(VcsError::RevisionCollision)
    } else {
        Ok(table.insert(oid, revision))
    }
}

/// Whether every identifier of a table is that of its revision.
pub open spec fn table_wf(table: Map<Seq<char>, Seq<char>>) -> bool {
    forall|oid: Seq<char>|
        #[trigger] table.contains_key(oid) ==> valid_oid(oid) && oid_of(table[oid]) == oid
}

/// A table after some revisions were recorded in turn, up to the first that could not be.
pub open spec fn recording(
    table: Map<Seq<char>, Seq<char>>,
    revisions: Seq<Seq<char>>,
) -> (Map<Seq<char>, Seq<char>>, Option<VcsError>)
    decreases revisions.len(),
{
    if revisions.len() == 0 {
        (table, None)
    } else {
        match recorded(table, revisions[0]) {
            Err(error) => (table, Some(error)),
            Ok(after) => recording(after, revisions.skip(1)),
        }
    }
}

/// Whether whatever `before` knows, `after` knows as well.
pub open spec fn keeps(
    before: Map<Seq<char>, Seq<char>>,
    after: Map<Seq<char>, Seq<char>>,
) -> bool {
    forall|oid: Seq<char>| #[trigger]
        before.contains_key(oid) ==> after.contains_key(oid) && after[oid] == before[oid]
}

/// Whether a table knows a revision by its identifier.
pub open spec fn knows(table: Map<Seq<char>, Seq<char>>, revision: Seq<char>) -> bool {
    table.contains_key(oid_of(revision)) && table[oid_of(revision)] == revision
}

/// Recording revisions in turn keeps what was known, and where it gets to the end each of them is
/// known by its identifier.
pub proof fn law_recording_keeps_meanings(
    table: Map<Seq<char>, Seq<char>>,
    revisions: Seq<Seq<char>>,
)
    ensures
        keeps(table, recording(table, revisions).0),
        recording(table, revisions).1 is None ==> forall|i: int|
            0 <= i < revisions.len() ==> knows(
                recording(table, revisions).0,
                #[trigger] revisions[i],
            ),
    decreases revisions.len(),
{
    if revisions.len() > 0 {
        if let Ok(after) = recorded(table, revisions[0]) {
            let rest = revisions.skip(1);
            law_recording_keeps_meanings(after, rest);
            assert(knows(after, revisions[0]));
            assert forall|oid: Seq<char>| #[trigger] table.contains_key(oid) implies recording(
                after,
                rest,
            ).0.contains_key(oid) && recording(after, rest).0[oid] == table[oid] by {
                assert(after.contains_key(oid));
            }
            assert forall|i: int|
                0 <= i < revisions.len() && recording(after, rest).1 is None implies knows(
                recording(after, rest).0,
                #[trigger] revisions[i],
            ) by {
                if i > 0 {
                    assert(rest[i - 1] == revisions[i]);
                } else {
                    assert(after.contains_key(oid_of(revisions[0])));
                }
            }
        }
    }
}

/// The revision that a name stands for: the current one for `HEAD`, a recorded one for its object
/// identifier, and otherwise the name itself.
pub open spec fn resolved(
    table: Map<Seq<char>, Seq<char>>,
    head: Option<Seq<char>>,
    name: Seq<char>,
) -> Result<Seq<char>, VcsError> {
    if name == "HEAD"@ {
        match head {
            Some(revision) => Ok(revision),
            None => Err(VcsError::NoCurrentRevision),
        }
    } else {
        match parsed_oid(name) {
            Some(oid) => if table.contains_key(oid) {
                Ok(table[oid])
            } else {
                Ok(name)
            },
            None => Ok(name),
        }
    }
}

impl RevisionTable {
    /// A table that knows nothing.
    pub fn new() -> (table: RevisionTable)
        ensures
            table@ == Map::<Seq<char>, Seq<char>>::empty(),
    {
        let table: RevisionTable = RevisionTable { revisions: StringHashMap::new() };
        assert(table@ =~= Map::<Seq<char>, Seq<char>>::empty());
        table
    }

    /// Records a revision and gives its object identifier.
    pub fn record(&mut self, revision: &str) -> (oid: Result<Oid, VcsError>)
        ensures
            match recorded(old(self)@, revision@) {
                Ok(table) => oid matches Ok(oid) && oid@ == oid_of(revision@) && valid_oid(oid@)
                    && final(self)@ == table,
                Err(error) => oid == Err::<Oid, VcsError>(error) && final(self)@ == old(self)@,
            },
            oid matches Ok(oid) ==> forall|head: Option<Seq<char>>| #[trigger]
                resolved(final(self)@, head, oid@) == Ok::<Seq<char>, VcsError>(revision@),
            table_wf(old(self)@) ==> table_wf(final(self)@),
    {
        let oid: Oid = Oid::of_revision(revision);
        if let Some(previous) = self.revisions.get(&oid.hex) {
            if !same_text(previous, revision) {
                return Err(VcsError::RevisionCollision);
            }
        }
        self.revisions.insert(oid.text(), revision.to_owned());
        assert(self@ =~= old(self)@.insert(oid@, revision@));
        proof {
            assert forall|head: Option<Seq<char>>| #[trigger]
                resolved(self@, head, oid@) == Ok::<Seq<char>, VcsError>(revision@) by {
                law_recorded_revision_is_resolved(old(self)@, head, revision@);
            }
            if table_wf(old(self)@) {
                assert forall|known: Seq<char>| #[trigger] self@.contains_key(known) implies
                    valid_oid(known) && oid_of(self@[known]) == known by {
                    if known != oid@ {
                        assert(old(self)@.contains_key(known));
                    }
                }
            }
        }
        Ok(oid)
    }

    /// The revision recorded under an object identifier.
    pub fn get(&self, oid: &Oid) -> (revision: Option<&String>)
        ensures
            match revision {
                Some(revision) => self@.contains_key(oid@) && self@[oid@] == revision@,
                None => !self@.contains_key(oid@),
            },
    {
        self.revisions.get(&oid.hex)
    }

    /// The revision that a name stands for.
    pub fn resolve(&self, head: &Option<String>, name: &str) -> (revision: Result<
        String,
        VcsError,
    >)
        ensures
            match resolved(
                self@,
                match *head {
                    Some(revision) => Some(revision@),
                    None => None,
                },
                name@,
            ) {
                Ok(found) => revision matches Ok(revision) && revision@ == found,
                Err(error) => revision == Err::<String, VcsError>(error),
            },
    {
        if same_text(name, "HEAD") {
            return match head {
                Some(revision) => Ok(revision.clone()),
                None => Err(VcsError::NoCurrentRevision),
            };
        }
        if let Some(oid) = Oid::parse(name) {
            if let Some(revision) = self.get(&oid) {
                return Ok(revision.clone());
            }
        }
        Ok(name.to_owned())
    }
}

/// The object identifier of a recorded revision stands for that revision.
pub proof fn law_recorded_revision_is_resolved(
    table: Map<Seq<char>, Seq<char>>,
    head: Option<Seq<char>>,
    revision: Seq<char>,
)
    requires
        recorded(table, revision) is Ok,
        valid_oid(oid_of(revision)),
    ensures
        resolved(recorded(table, revision)->Ok_0, head, oid_of(revision)) == Ok::<
            Seq<char>,
            VcsError,
        >(revision),
{
    reveal_strlit("HEAD");
    law_oids_are_valid(oid_of(revision), Seq::new(16, |i: int| 0u8));
}

/// Recording a revision changes nothing about those recorded before.
pub proof fn law_recorded_revisions_stay(table: Map<Seq<char>, Seq<char>>, revision: Seq<char>)
    ensures
        recorded(table, revision) matches Ok(after) ==> keeps(table, after),
{
}

/// An object identifier is 40 or 64 hexadecimal digits, and is read in lower case: a capital letter
/// as the small one, and every other digit as it stands.
pub proof fn law_identifiers_are_read_in_lower_case(text: Seq<char>)
    ensures
        parsed_oid(text) is Some <==> (text.len() == 40 || text.len() == 64) && forall|i: int|
            0 <= i < text.len() ==> {
                ||| '0' <= #[trigger] text[i] <= '9'
                ||| 'a' <= text[i] <= 'f'
                ||| 'A' <= text[i] <= 'F'
            },
        parsed_oid(text) matches Some(oid) ==> {
            &&& oid.len() == text.len()
            &&& forall|i: int|
                0 <= i < oid.len() ==> if 'A' <= text[i] <= 'F' {
                    (#[trigger] oid[i]) as u32 == text[i] as u32 + 32
                } else {
                    oid[i] == text[i]
                }
        },
        parsed_oid(text) matches Some(oid) ==> oid_of(text) == oid,
{
    if parsed_oid(text) is Some {
        assert forall|i: int| 0 <= i < text.len() implies {
            ||| '0' <= #[trigger] text[i] <= '9'
            ||| 'a' <= text[i] <= 'f'
            ||| 'A' <= text[i] <= 'F'
        } by {
            assert(is_hex(text[i]));
        }
        let oid = parsed_oid(text)->0;
        assert forall|i: int| 0 <= i < oid.len() implies if 'A' <= text[i] <= 'F' {
            (#[trigger] oid[i]) as u32 == text[i] as u32 + 32
        } else {
            oid[i] == text[i]
        } by {
            assert(is_hex(text[i]));
            assert(oid[i] == ascii_lower(text[i]));
        }
    }
    if forall|i: int|
        0 <= i < text.len() ==> {
            ||| '0' <= #[trigger] text[i] <= '9'
            ||| 'a' <= text[i] <= 'f'
            ||| 'A' <= text[i] <= 'F'
        } {
        assert forall|i: int| 0 <= i < text.len() implies is_hex(#[trigger] text[i]) by {}
    }
}

/// The number that a hexadecimal digit in lower case stands for.
pub open spec fn digit_number(c: char) -> int {
    if '0' <= c <= '9' {
        c as u32 - 48
    } else {
        c as u32 - 87
    }
}

/// Bytes in hexadecimal can be read back: each is sixteen times its first digit and its second.
pub proof fn law_hexadecimal_is_read_back(bytes: Seq<u8>, i: int)
    requires
        0 <= i < bytes.len(),
    ensures
        hex_of(bytes).len() == 2 * bytes.len(),
        is_lower_hex(hex_of(bytes)[2 * i]),
        is_lower_hex(hex_of(bytes)[2 * i + 1]),
        bytes[i] == 16 * digit_number(hex_of(bytes)[2 * i]) + digit_number(
            hex_of(bytes)[2 * i + 1],
        ),
{
    let byte = bytes[i] as int;
    assert((2 * i) / 2 == i && (2 * i) % 2 == 0);
    assert((2 * i + 1) / 2 == i && (2 * i + 1) % 2 == 1);
    assert(byte == 16 * (byte / 16) + byte % 16);
    assert(0 <= byte / 16 < 16);
    assert(hex_of(bytes)[2 * i] == hex_digit(byte / 16));
    assert(hex_of(bytes)[2 * i + 1] == hex_digit(byte % 16));
}

/// A revision that is no object identifier gets one that begins with the digits of `vcs!` and ends
/// with those of the UUID of its name, and that of no other revision with another UUID.
pub proof fn law_opaque_revisions_are_marked(revision: Seq<char>, other: Seq<char>)
    requires
        parsed_oid(revision) is None,
        parsed_oid(other) is None,
        oid_namespace_uuid(encode_utf8(revision)).len() == 16,
        oid_namespace_uuid(encode_utf8(other)).len() == 16,
    ensures
        oid_of(revision).len() == 40,
        oid_of(revision).take(8) == "76637321"@,
        oid_of(revision).skip(8) == hex_of(oid_namespace_uuid(encode_utf8(revision))),
        oid_of(revision) == oid_of(other) <==> oid_namespace_uuid(encode_utf8(revision))
            == oid_namespace_uuid(encode_utf8(other)),
{
    let uuid = oid_namespace_uuid(encode_utf8(revision));
    let another = oid_namespace_uuid(encode_utf8(other));
    let bytes = opaque_mark() + uuid;
    let oid = oid_of(revision);
    reveal_strlit("76637321");
    assert forall|i: int| 0 <= i < 4 implies bytes[i] == #[trigger] opaque_mark()[i] by {}
    assert(opaque_mark()[0] == 0x76u8 && opaque_mark()[1] == 0x63u8 && opaque_mark()[2] == 0x73u8
        && opaque_mark()[3] == 0x21u8);
    assert(oid.take(8) =~= "76637321"@);
    assert(oid.skip(8) =~= hex_of(uuid)) by {
        assert forall|j: int| 0 <= j < 32 implies oid.skip(8)[j] == #[trigger] hex_of(uuid)[j] by {
            assert((j + 8) / 2 == j / 2 + 4 && (j + 8) % 2 == j % 2);
            assert(bytes[j / 2 + 4] == uuid[j / 2]);
        }
    }
    if oid == oid_of(other) {
        assert forall|i: int| 0 <= i < 16 implies uuid[i] == another[i] by {
            law_hexadecimal_is_read_back(bytes, i + 4);
            law_hexadecimal_is_read_back(opaque_mark() + another, i + 4);
            assert(bytes[i + 4] == uuid[i]);
            assert((opaque_mark() + another)[i + 4] == another[i]);
        }
        assert(uuid =~= another);
    }
}

/// Recording fails exactly where another revision has the identifier already. Otherwise the revision
/// is known by its identifier, all else is as it was, and recording it once more changes nothing.
pub proof fn law_recording_adds_one_revision(
    table: Map<Seq<char>, Seq<char>>,
    revision: Seq<char>,
)
    ensures
        recorded(table, revision) is Err <==> exists|other: Seq<char>|
            #![trigger table.contains_value(other)]
            other != revision && table.contains_key(oid_of(revision)) && table[oid_of(revision)]
                == other && table.contains_value(other),
        recorded(table, revision) matches Err(error) ==> error == VcsError::RevisionCollision,
        recorded(table, revision) matches Ok(after) ==> {
            &&& after.contains_key(oid_of(revision))
            &&& after[oid_of(revision)] == revision
            &&& forall|oid: Seq<char>|
                oid != oid_of(revision) ==> {
                    &&& #[trigger] after.contains_key(oid) <==> table.contains_key(oid)
                    &&& table.contains_key(oid) ==> after[oid] == table[oid]
                }
            &&& recorded(after, revision) == Ok::<Map<Seq<char>, Seq<char>>, VcsError>(after)
        },
{
    let oid = oid_of(revision);
    if recorded(table, revision) is Err {
        assert(table.contains_value(table[oid]));
    }
    if let Ok(after) = recorded(table, revision) {
        assert(after.insert(oid, revision) =~= after);
    }
}

/// Revisions that are recorded in turn are recorded one group after another.
pub proof fn law_recording_goes_in_turn(
    table: Map<Seq<char>, Seq<char>>,
    first: Seq<Seq<char>>,
    rest: Seq<Seq<char>>,
)
    ensures
        recording(table, first + rest) == if recording(table, first).1 is Some {
            recording(table, first)
        } else {
            recording(recording(table, first).0, rest)
        },
        recording(table, Seq::empty()) == (table, None::<VcsError>),
    decreases first.len(),
{
    if first.len() == 0 {
        assert(first + rest =~= rest);
    } else {
        assert((first + rest)[0] == first[0]);
        assert((first + rest).skip(1) =~= first.skip(1) + rest);
        if let Ok(after) = recorded(table, first[0]) {
            law_recording_goes_in_turn(after, first.skip(1), rest);
        }
    }
}

/// Only `HEAD` stands for the current revision, and for nothing else. Any other name stands for
/// itself, unless it is the identifier of a recorded revision, for which it then stands.
pub proof fn law_names_stand_for_themselves_or_what_is_recorded(
    table: Map<Seq<char>, Seq<char>>,
    head: Option<Seq<char>>,
    other_head: Option<Seq<char>>,
    name: Seq<char>,
)
    ensures
        head matches Some(revision) ==> resolved(table, head, "HEAD"@) == Ok::<
            Seq<char>,
            VcsError,
        >(revision),
        head is None ==> resolved(table, head, "HEAD"@) == Err::<Seq<char>, VcsError>(
            VcsError::NoCurrentRevision,
        ),
        name != "HEAD"@ ==> {
            &&& resolved(table, head, name) is Ok
            &&& resolved(table, head, name) == resolved(table, other_head, name)
            &&& resolved(Map::empty(), head, name) == Ok::<Seq<char>, VcsError>(name)
            &&& parsed_oid(name) is None ==> resolved(table, head, name) == Ok::<
                Seq<char>,
                VcsError,
            >(name)
            &&& parsed_oid(name) matches Some(oid) ==> {
                &&& table.contains_key(oid) ==> resolved(table, head, name)->Ok_0 == table[oid]
                &&& !table.contains_key(oid) ==> resolved(table, head, name)->Ok_0 == name
            }
        },
{
}

/// Recording in turn fails exactly where one of the revisions finds its identifier taken by another,
/// after those before it were recorded, and what is known then is what those left.
pub proof fn law_recording_fails_at_the_first_collision(
    table: Map<Seq<char>, Seq<char>>,
    revisions: Seq<Seq<char>>,
    i: int,
)
    requires
        0 <= i < revisions.len(),
        recording(table, revisions.take(i)).1 is None,
    ensures
        ({
            let before = recording(table, revisions.take(i)).0;
            let oid = oid_of(revisions[i]);
            let next = recording(table, revisions.take(i + 1));
            &&& next.1 is Some <==> before.contains_key(oid) && before[oid] != revisions[i]
            &&& next.1 is Some ==> next == (before, Some(VcsError::RevisionCollision))
                && recording(table, revisions) == next
        }),
{
    let before = recording(table, revisions.take(i)).0;
    let one = seq![revisions[i]];
    assert(revisions.take(i + 1) =~= revisions.take(i) + one);
    assert(revisions.take(i + 1) + revisions.skip(i + 1) =~= revisions);
    law_recording_goes_in_turn(table, revisions.take(i), one);
    law_recording_goes_in_turn(table, revisions.take(i + 1), revisions.skip(i + 1));
    reveal_with_fuel(recording, 2);
    assert(one.skip(1) =~= Seq::<Seq<char>>::empty());
}

} // verus!
