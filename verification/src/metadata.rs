//! The metadata entry of a replay archive: one JSON object that describes the
//! session.

use crate::error::Error;
use vstd::prelude::*;
use vstd::string::StringExecFns;
use vstd::utf8::encode_utf8;

verus! {

/// Version of the replay file format that the archive follows.
pub const FORMAT_VERSION: u64 = 14;

/// Name of the replay file format.
pub const FORMAT_NAME: &'static str = "MCPR";

/// A JSON value that is no array and no object.
#[derive(Clone, Debug, PartialEq, Eq)]
pub enum JsonScalar {
    Flag(bool),
    Unsigned(u64),
    Signed(i64),
    Text(String),
}

/// What a [`JsonScalar`] stands for.
pub ghost enum JsonScalarView {
    Flag(bool),
    Number(int),
    Text(Seq<char>),
}

impl View for JsonScalar {
    type V = JsonScalarView;

    open spec fn view(&self) -> JsonScalarView {
        match self {
            JsonScalar::Flag(flag) => JsonScalarView::Flag(*flag),
            JsonScalar::Unsigned(number) => JsonScalarView::Number(*number as int),
            JsonScalar::Signed(number) => JsonScalarView::Number(*number as int),
            JsonScalar::Text(text) => JsonScalarView::Text(text@),
        }
    }
}

/// The members of an object as names and what their values stand for.
pub open spec fn member_views(members: Seq<(String, JsonScalar)>) -> Seq<
    (Seq<char>, JsonScalarView),
> {
    members.map_values(|member: (String, JsonScalar)| (member.0@, member.1@))
}

/// The compact JSON text that `serde_json` writes for the object with these
/// members, inserted in this order.
pub uninterp spec fn json_object_text(members: Seq<(Seq<char>, JsonScalarView)>) -> Seq<char>;

/// Most bytes that one value takes in JSON text: a flag at most the five
/// letters of `false`, a number of 64 bits at most twenty digits and sign,
/// and a text two quotes and at most six bytes for each character.
pub open spec fn scalar_size_limit(value: JsonScalarView) -> nat {
    match value {
        JsonScalarView::Flag(_) => 5,
        JsonScalarView::Number(_) => 20,
        JsonScalarView::Text(text) => 6 * text.len() + 2,
    }
}

/// Most bytes that the text of an object takes: two braces and, for each
/// member, its name and value with two quotes, a colon and a comma.
pub open spec fn json_size_limit(members: Seq<(Seq<char>, JsonScalarView)>) -> nat
    decreases members.len(),
{
    if members.len() == 0 {
        2
    } else {
        json_size_limit(members.drop_last()) + 6 * members.last().0.len() + 4
            + scalar_size_limit(members.last().1)
    }
}

/// `serde_json::Value::to_string` on the object that holds the given members,
/// each put in with `serde_json::Map::insert`. The text depends on the
/// members alone. In UTF-8 it is no longer than [`json_size_limit`] allows:
/// `serde_json` writes a character as it is or as an escape of at most six
/// bytes, and writes nothing beside names, values and their punctuation.
#[verifier::external_body]
fn render_object(members: &Vec<(String, JsonScalar)>) -> (text: String)
    ensures
        text@ == json_object_text(member_views(members@)),
        encode_utf8(text@).len() <= json_size_limit(member_views(members@)),
{
    let mut object = serde_json::Map::new();
    for (name, value) in members {
        let value = match value {
            JsonScalar::Flag(flag) => serde_json::Value::from(*flag),
            JsonScalar::Unsigned(number) => serde_json::Value::from(*number),
            JsonScalar::Signed(number) => serde_json::Value::from(*number),
            JsonScalar::Text(text) => serde_json::Value::from(text.as_str()),
        };
        object.insert(name.clone(), value);
    }
    serde_json::Value::Object(object).to_string()
}

/// What is known of a session once it has ended.
#[derive(Clone, Debug, PartialEq, Eq)]
pub struct SessionMetadata {
    /// The server that the session was held with.
    pub server_label: String,
    /// Milliseconds from the start of the session to its end.
    pub duration_ms: u64,
    /// Milliseconds from the Unix epoch to the start of the session.
    pub start_wallclock_ms: u64,
    /// Name of the game version that the protocol belongs to.
    pub game_version: String,
    /// Number of the protocol version.
    pub protocol_version: i32,
    /// The program that made the recording, and its version.
    pub generator: String,
}

/// What a [`SessionMetadata`] stands for.
pub ghost struct SessionMetadataView {
    pub server_label: Seq<char>,
    pub duration_ms: int,
    pub start_wallclock_ms: int,
    pub game_version: Seq<char>,
    pub protocol_version: int,
    pub generator: Seq<char>,
}

impl SessionMetadataView {
    /// The members of the metadata object, by name in alphabetical order.
    pub open spec fn members(self) -> Seq<(Seq<char>, JsonScalarView)> {
        seq![
            ("date"@, JsonScalarView::Number(self.start_wallclock_ms)),
            ("duration"@, JsonScalarView::Number(self.duration_ms)),
            ("fileFormat"@, JsonScalarView::Text(FORMAT_NAME@)),
            ("fileFormatVersion"@, JsonScalarView::Number(FORMAT_VERSION as int)),
            ("generator"@, JsonScalarView::Text(self.generator)),
            ("mcversion"@, JsonScalarView::Text(self.game_version)),
            ("protocol"@, JsonScalarView::Number(self.protocol_version)),
            ("serverName"@, JsonScalarView::Text(self.server_label)),
            ("singleplayer"@, JsonScalarView::Flag(false)),
        ]
    }

    /// The text of the metadata entry.
    pub open spec fn json(self) -> Seq<char> {
        json_object_text(self.members())
    }

    /// The number of characters in the three labels of the session.
    pub open spec fn label_chars(self) -> nat {
        self.server_label.len() + self.game_version.len() + self.generator.len()
    }

    /// Most bytes that the text of the metadata entry takes.
    pub open spec fn json_limit(self) -> nat {
        6 * self.label_chars() + 677
    }
}

impl View for SessionMetadata {
    type V = SessionMetadataView;

    open spec fn view(&self) -> SessionMetadataView {
        SessionMetadataView {
            server_label: self.server_label@,
            duration_ms: self.duration_ms as int,
            start_wallclock_ms: self.start_wallclock_ms as int,
            game_version: self.game_version@,
            protocol_version: self.protocol_version as int,
            generator: self.generator@,
        }
    }
}

/// Whether the object has a member of this name and value.
pub open spec fn has_member(
    members: Seq<(Seq<char>, JsonScalarView)>,
    name: Seq<char>,
    value: JsonScalarView,
) -> bool {
    exists|i: int| 0 <= i < members.len() && #[trigger] members[i] == (name, value)
}

/// Whatever the session, its metadata names the format `MCPR` in version 14,
/// says that the session was not single-player, and gives the session's
/// duration and start date.
pub proof fn lemma_metadata_members(metadata: SessionMetadataView)
    ensures
        metadata.members().len() == 9,
        has_member(metadata.members(), "fileFormat"@, JsonScalarView::Text("MCPR"@)),
        has_member(metadata.members(), "fileFormatVersion"@, JsonScalarView::Number(14)),
        has_member(metadata.members(), "singleplayer"@, JsonScalarView::Flag(false)),
        has_member(
            metadata.members(),
            "duration"@,
            JsonScalarView::Number(metadata.duration_ms),
        ),
        has_member(
            metadata.members(),
            "date"@,
            JsonScalarView::Number(metadata.start_wallclock_ms),
        ),
{
    let members = metadata.members();
    assert(members[0] == ("date"@, JsonScalarView::Number(metadata.start_wallclock_ms)));
    assert(members[1] == ("duration"@, JsonScalarView::Number(metadata.duration_ms)));
    assert(members[2] == ("fileFormat"@, JsonScalarView::Text("MCPR"@)));
    assert(members[3] == ("fileFormatVersion"@, JsonScalarView::Number(14)));
    assert(members[8] == ("singleplayer"@, JsonScalarView::Flag(false)));
}

/// The text of a session's metadata is no longer than six bytes for each
/// character of its labels and 677 bytes for the rest.
pub proof fn lemma_metadata_size(metadata: SessionMetadataView)
    ensures
        json_size_limit(metadata.members()) == metadata.json_limit(),
{
    reveal_strlit("date");
    reveal_strlit("duration");
    reveal_strlit("fileFormat");
    reveal_strlit("fileFormatVersion");
    reveal_strlit("generator");
    reveal_strlit("mcversion");
    reveal_strlit("protocol");
    reveal_strlit("serverName");
    reveal_strlit("singleplayer");
    reveal_strlit("MCPR");
    let m9 = metadata.members();
    let m8 = m9.drop_last();
    let m7 = m8.drop_last();
    let m6 = m7.drop_last();
    let m5 = m6.drop_last();
    let m4 = m5.drop_last();
    let m3 = m4.drop_last();
    let m2 = m3.drop_last();
    let m1 = m2.drop_last();
    let m0 = m1.drop_last();
    assert(json_size_limit(m0) == 2);
    assert(json_size_limit(m1) == 2 + 6 * 4 + 4 + 20);
    assert(json_size_limit(m2) == json_size_limit(m1) + 6 * 8 + 4 + 20);
    assert(json_size_limit(m3) == json_size_limit(m2) + 6 * 10 + 4 + (6 * 4 + 2));
    assert(json_size_limit(m4) == json_size_limit(m3) + 6 * 17 + 4 + 20);
    assert(json_size_limit(m5) == json_size_limit(m4) + 6 * 9 + 4 + (6 * metadata.generator.len()
        + 2));
    assert(json_size_limit(m6) == json_size_limit(m5) + 6 * 9 + 4 + (6
        * metadata.game_version.len() + 2));
    assert(json_size_limit(m7) == json_size_limit(m6) + 6 * 8 + 4 + 20);
    assert(json_size_limit(m8) == json_size_limit(m7) + 6 * 10 + 4 + (6
        * metadata.server_label.len() + 2));
    assert(json_size_limit(m9) == json_size_limit(m8) + 6 * 12 + 4 + 5);
}

/// Whether duration and start date can be had from the two clock readings at
/// the end of a session: the wall clock stands at or after the Unix epoch and
/// no earlier than the session's start, and both numbers fit a JSON integer
/// of 64 bits.
pub open spec fn timing_fits(elapsed_ms: int, unix_ms: Option<int>) -> bool {
    unix_ms is Some && 0 <= elapsed_ms <= unix_ms->Some_0 && elapsed_ms <= u64::MAX
        && unix_ms->Some_0 - elapsed_ms <= u64::MAX
}

/// The wall-clock reading as an integer.
pub open spec fn reading(unix_ms: Option<u128>) -> Option<int> {
    match unix_ms {
        Some(now) => Some(now as int),
        None => None,
    }
}

impl SessionMetadata {
    /// Describes a session that ends now, `elapsed_ms` after it began, with
    /// the wall clock at `unix_ms` since the Unix epoch (`None`: before it).
    ///
    /// The duration is `elapsed_ms`, and the start date is the wall clock's
    /// reading less the duration.
    pub fn new(
        server_label: String,
        elapsed_ms: u128,
        unix_ms: Option<u128>,
        game_version: String,
        protocol_version: i32,
        generator: String,
    ) -> (made: Result<SessionMetadata, Error>)
        ensures
            made is Ok <==> timing_fits(elapsed_ms as int, reading(unix_ms)),
            made is Ok ==> made->Ok_0@ == (SessionMetadataView {
                server_label: server_label@,
                duration_ms: elapsed_ms as int,
                start_wallclock_ms: unix_ms->Some_0 - elapsed_ms,
                game_version: game_version@,
                protocol_version: protocol_version as int,
                generator: generator@,
            }),
            made is Err ==> made->Err_0 == Error::Serialization,
    {
        let now: u128 = match unix_ms {
            Some(now) => now,
            None => { return Err(Error::Serialization); },
        };
        if elapsed_ms > now || elapsed_ms > u64::MAX as u128 || now - elapsed_ms > u64::MAX as u128 {
            return Err(Error::Serialization);
        }
        Ok(
            SessionMetadata {
                server_label,
                duration_ms: elapsed_ms as u64,
                start_wallclock_ms: (now - elapsed_ms) as u64,
                game_version,
                protocol_version,
                generator,
            },
        )
    }

    /// The members of the metadata object, by name in alphabetical order.
    pub fn members(&self) -> (members: Vec<(String, JsonScalar)>)
        ensures
            member_views(members@) == self@.members(),
    {
        let mut members: Vec<(String, JsonScalar)> = Vec::new();
        members.push((String::from_str("date"), JsonScalar::Unsigned(self.start_wallclock_ms)));
        members.push((String::from_str("duration"), JsonScalar::Unsigned(self.duration_ms)));
        members.push(
            (String::from_str("fileFormat"), JsonScalar::Text(String::from_str(FORMAT_NAME))),
        );
        members.push((String::from_str("fileFormatVersion"), JsonScalar::Unsigned(FORMAT_VERSION)));
        members.push((String::from_str("generator"), JsonScalar::Text(self.generator.clone())));
        members.push((String::from_str("mcversion"), JsonScalar::Text(self.game_version.clone())));
        members.push(
            (String::from_str("protocol"), JsonScalar::Signed(self.protocol_version as i64)),
        );
        members.push((String::from_str("serverName"), JsonScalar::Text(self.server_label.clone())));
        members.push((String::from_str("singleplayer"), JsonScalar::Flag(false)));
        assert(member_views(members@) =~= self@.members());
        members
    }

    /// The text of the metadata entry: the object of [`Self::members`] as
    /// compact JSON.
    pub fn to_json(&self) -> (text: String)
        ensures
            text@ == self@.json(),
            encode_utf8(text@).len() <= self@.json_limit(),
    {
        let members = self.members();
        proof {
            lemma_metadata_size(self@);
        }
        render_object(&members)
    }
}

} // verus!
