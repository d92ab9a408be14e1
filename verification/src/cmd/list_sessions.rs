//! Listing the sessions that the agent keeps.
use vstd::prelude::*;

use crate::text;
use crate::time;
use crate::time::Timestamp;

verus! {

#[derive(Debug, Clone, Copy)]
pub struct ListSessionsArgs {
    /// Show time in UTC instead of local time
    pub utc: bool,
    pub output: ListSessionsFormat,
}

#[derive(Debug, Clone, Copy)]
pub enum ListSessionsFormat {
    Text,
    Json,
}

/// When a session expires.
#[derive(Debug, Clone, Copy)]
pub enum Expiration {
    Never,
    /// The moment, and how many seconds the local time zone is then ahead of UTC.
    At { time: Timestamp, local_offset: i32 },
    /// The agent gave no valid moment.
    Invalid,
}

/// A session as the agent lists it.
#[derive(Debug)]
pub struct Session {
    pub id: u32,
    pub server_id: String,
    pub server_url: String,
    pub expiration: Expiration,
    pub refreshable: bool,
}

/// A session as it is listed in JSON.
#[derive(Debug)]
pub struct JsonSession<'a> {
    pub id: u32,
    pub server_id: &'a str,
    pub server_url: &'a str,
    pub expires_at: Option<Timestamp>,
    pub refreshable: bool,
}

/// What is printed: lines of text, or a JSON object with the sessions.
#[derive(Debug)]
pub enum Listing<'a> {
    Text(Vec<String>),
    Json(Vec<JsonSession<'a>>),
}

/// What is said of the expiry, given the text of its time.
pub open spec fn expiring_text(session: Session, time: Seq<char>) -> Seq<char> {
    match (session.expiration, session.refreshable) {
        (Expiration::At { .. }, true) => " [renews after "@ + time + "]"@,
        (Expiration::At { .. }, false) => " [until "@ + time + "]"@,
        (Expiration::Never, true) => "[refreshable]"@,
        (Expiration::Never, false) => seq![],
        (Expiration::Invalid, _) => seq![],
    }
}

/// The line for a session, given the text of its expiry time.
pub open spec fn session_text_at(session: Session, time: Seq<char>) -> Seq<char> {
    text::decimal(session.id as nat) + ". "@ + session.server_id@ + ": "@ + session.server_url@
        + expiring_text(session, time)
}

/// The text of the expiry time, empty where there is none.
pub open spec fn expiry_time_text(session: Session, utc: bool) -> Seq<char> {
    match session.expiration {
        Expiration::At { time, local_offset } => time::rfc3339_of(
            time.seconds,
            time.nanos,
            time::shown_offset(utc, local_offset),
        ),
        _ => seq![],
    }
}

/// The expiry time, if any, has a calendar date in the time zone that it is shown in.
pub open spec fn expiry_has_date(session: Session, utc: bool) -> bool {
    session.expiration matches Expiration::At { time, local_offset } ==> time.has_date_at(
        time::shown_offset(utc, local_offset),
    )
}

/// `entry` lists `session`.
pub open spec fn lists(entry: JsonSession, session: Session) -> bool {
    &&& entry.id == session.id
    &&& entry.server_id@ == session.server_id@
    &&& entry.server_url@ == session.server_url@
    &&& entry.expires_at == match session.expiration {
        Expiration::At { time, local_offset } => Some(time),
        _ => None,
    }
    &&& entry.refreshable == session.refreshable
}

/// The line for a session, given the text of its expiry time.
pub fn session_line_at(session: &Session, time: &str) -> (r: String)
    ensures
        r@ == session_text_at(*session, time@),
{
    let mut line = String::new();
    text::append_decimal(&mut line, session.id);
    line.append(". ");
    line.append(session.server_id.as_str());
    line.append(": ");
    line.append(session.server_url.as_str());
    let ghost head = line@;
    match session.expiration {
        Expiration::At { .. } => {
            if session.refreshable {
                line.append(" [renews after ");
            } else {
                line.append(" [until ");
            }
            line.append(time);
            line.append("]");
        },
        Expiration::Never => {
            if session.refreshable {
                line.append("[refreshable]");
            }
        },
        Expiration::Invalid => {},
    }
    assert(line@ =~= head + expiring_text(*session, time@));
    assert(line@ =~= session_text_at(*session, time@));
    line
}

/// The line for a session.
pub fn session_line(session: &Session, utc: bool) -> (r: String)
    requires
        expiry_has_date(*session, utc),
    ensures
        r@ == session_text_at(*session, expiry_time_text(*session, utc)),
{
    match session.expiration {
        Expiration::At { time, local_offset } => {
            let shown = time::format_time(&time, utc, local_offset);
            session_line_at(session, shown.as_str())
        },
        _ => {
            let shown = String::new();
            session_line_at(session, shown.as_str())
        },
    }
}

/// Whether the expiry time, if any, has a calendar date in the time zone that it is shown in.
pub fn check_expiry_date(session: &Session, utc: bool) -> (r: bool)
    ensures
        r == expiry_has_date(*session, utc),
{
    match session.expiration {
        Expiration::At { time, local_offset } => time.check_date_at(
            if utc {
                0
            } else {
                local_offset
            },
        ),
        _ => true,
    }
}

/// The entry for a session in JSON.
pub fn json_session(session: &Session) -> (r: JsonSession<'_>)
    ensures
        lists(r, *session),
        r.id == session.id,
        r.server_id@ == session.server_id@,
        r.server_url@ == session.server_url@,
        r.refreshable == session.refreshable,
        match session.expiration {
            Expiration::At { time, local_offset } => r.expires_at == Some(time),
            Expiration::Never => r.expires_at is None,
            Expiration::Invalid => r.expires_at is None,
        },
{
    JsonSession {
        id: session.id,
        server_id: session.server_id.as_str(),
        server_url: session.server_url.as_str(),
        expires_at: match session.expiration {
            Expiration::At { time, .. } => Some(time),
            _ => None,
        },
        refreshable: session.refreshable,
    }
}

/// The listing of the sessions, in their order.
pub fn run<'a>(args: &ListSessionsArgs, sessions: &'a Vec<Session>) -> (r: Listing<'a>)
    requires
        args.output is Text ==> forall|i: int|
            0 <= i < sessions@.len() ==> expiry_has_date(#[trigger] sessions@[i], args.utc),
    ensures
        match r {
            Listing::Text(lines) => {
                &&& args.output is Text
                &&& lines@.len() == sessions@.len()
                &&& forall|i: int|
                    0 <= i < sessions@.len() ==> (#[trigger] lines@[i])@ == session_text_at(
                        sessions@[i],
                        expiry_time_text(sessions@[i], args.utc),
                    )
            },
            Listing::Json(entries) => {
                &&& args.output is Json
                &&& entries@.len() == sessions@.len()
                &&& forall|i: int|
                    0 <= i < sessions@.len() ==> lists(#[trigger] entries@[i], sessions@[i])
            },
        },
{
    match args.output {
        ListSessionsFormat::Text => {
            let mut lines: Vec<String> = Vec::new();
            let mut i: usize = 0;
            while i < sessions.len()
                invariant
                    i <= sessions@.len(),
                    lines@.len() == i,
                    forall|k: int|
                        0 <= k < sessions@.len() ==> expiry_has_date(
                            #[trigger] sessions@[k],
                            args.utc,
                        ),
                    forall|k: int|
                        0 <= k < i ==> (#[trigger] lines@[k])@ == session_text_at(
                            sessions@[k],
                            expiry_time_text(sessions@[k], args.utc),
                        ),
                decreases sessions@.len() - i,
            {
                lines.push(session_line(&sessions[i], args.utc));
                i = i + 1;
            }
            Listing::Text(lines)
        },
        ListSessionsFormat::Json => {
            let mut entries: Vec<JsonSession<'a>> = Vec::new();
            let mut i: usize = 0;
            while i < sessions.len()
                invariant
                    i <= sessions@.len(),
                    entries@.len() == i,
                    forall|k: int| 0 <= k < i ==> lists(#[trigger] entries@[k], sessions@[k]),
                decreases sessions@.len() - i,
            {
                entries.push(json_session(&sessions[i]));
                i = i + 1;
            }
            Listing::Json(entries)
        },
    }
}

/// The moment at which the session expires is the given one.
pub open spec fn expires(session: Session, moment: Timestamp) -> bool {
    exists|local_offset: i32|
        session.expiration == (#[trigger] Expiration::at(moment, local_offset))
}

impl Expiration {
    pub open spec fn at(time: Timestamp, local_offset: i32) -> Expiration {
        Expiration::At { time, local_offset }
    }
}

/// An entry in JSON has the values of the session, and shows a moment of expiry exactly when the
/// session expires at that moment, whether or not it can be refreshed.
pub proof fn lemma_json_entry(entry: JsonSession, session: Session, moment: Timestamp)
    requires
        lists(entry, session),
    ensures
        entry.id == session.id,
        entry.server_id@ == session.server_id@,
        entry.server_url@ == session.server_url@,
        entry.refreshable == session.refreshable,
        entry.expires_at == Some(moment) <==> expires(session, moment),
        entry.expires_at is None <==> !(session.expiration is At),
{
    if let Expiration::At { time, local_offset } = session.expiration {
        assert(session.expiration == Expiration::at(time, local_offset));
    }
}

/// Whether a session can be refreshed changes nothing else in its entry.
pub proof fn lemma_json_entry_refreshable(
    entry: JsonSession,
    session: Session,
    other_entry: JsonSession,
    other: Session,
)
    requires
        lists(entry, session),
        lists(other_entry, other),
        session.expiration == other.expiration,
    ensures
        entry.expires_at == other_entry.expires_at,
{
}

/// What an entry says of a session is all there is to say: an entry with these values lists it.
pub proof fn lemma_json_entry_complete(entry: JsonSession, session: Session)
    requires
        entry.id == session.id,
        entry.server_id@ == session.server_id@,
        entry.server_url@ == session.server_url@,
        entry.refreshable == session.refreshable,
        session.expiration matches Expiration::At { time, local_offset } ==> entry.expires_at
            == Some(time),
        !(session.expiration is At) ==> entry.expires_at is None,
    ensures
        lists(entry, session),
{
}

/// A line begins with the number of the session, its server and the URL of that. What follows says
/// when the session ends, and how: a session that can be refreshed renews.
pub proof fn lemma_session_line(session: Session, utc: bool)
    ensures
        ({
            let line = session_text_at(session, expiry_time_text(session, utc));
            let head = text::decimal(session.id as nat) + ". "@ + session.server_id@ + ": "@
                + session.server_url@;
            match session.expiration {
                Expiration::At { time, local_offset } => {
                    let shown = time::rfc3339_of(
                        time.seconds,
                        time.nanos,
                        if utc {
                            0
                        } else {
                            local_offset
                        },
                    );
                    &&& session.refreshable ==> line == head + " [renews after "@ + shown + "]"@
                    &&& !session.refreshable ==> line == head + " [until "@ + shown + "]"@
                },
                Expiration::Never => {
                    &&& session.refreshable ==> line == head + "[refreshable]"@
                    &&& !session.refreshable ==> line == head
                },
                Expiration::Invalid => line == head,
            }
        }),
{
    let line = session_text_at(session, expiry_time_text(session, utc));
    let shown = expiry_time_text(session, utc);
    let head = text::decimal(session.id as nat) + ". "@ + session.server_id@ + ": "@
        + session.server_url@;
    assert(head + (" [renews after "@ + shown + "]"@) =~= head + " [renews after "@ + shown + "]"@);
    assert(head + (" [until "@ + shown + "]"@) =~= head + " [until "@ + shown + "]"@);
    assert(head + Seq::<char>::empty() =~= head);
}

/// A line given the text of its time: the text stands in it only where there is a moment of expiry.
pub proof fn lemma_session_line_at(session: Session, time: Seq<char>)
    ensures
        ({
            let line = session_text_at(session, time);
            let head = text::decimal(session.id as nat) + ". "@ + session.server_id@ + ": "@
                + session.server_url@;
            match (session.expiration is At, session.refreshable) {
                (true, true) => line == head + " [renews after "@ + time + "]"@,
                (true, false) => line == head + " [until "@ + time + "]"@,
                (false, true) => line == if session.expiration is Never {
                    head + "[refreshable]"@
                } else {
                    head
                },
                (false, false) => line == head,
            }
        }),
{
    let head = text::decimal(session.id as nat) + ". "@ + session.server_id@ + ": "@
        + session.server_url@;
    assert(head + (" [renews after "@ + time + "]"@) =~= head + " [renews after "@ + time + "]"@);
    assert(head + (" [until "@ + time + "]"@) =~= head + " [until "@ + time + "]"@);
    assert(head + Seq::<char>::empty() =~= head);
}

/// A session can be shown in a time zone exactly when it has no moment of expiry, or that moment has
/// a calendar date there.
pub proof fn lemma_expiry_has_date(session: Session)
    ensures
        !(session.expiration is At) ==> expiry_has_date(session, true) && expiry_has_date(
            session,
            false,
        ),
        session.expiration matches Expiration::At { time, local_offset } ==> {
            &&& expiry_has_date(session, true) == time.has_date_at(0)
            &&& expiry_has_date(session, false) == time.has_date_at(local_offset)
        },
{
}

} // verus!
